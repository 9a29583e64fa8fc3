//! From a query to SQL, and from rows back to entries.
//!
//! No text of the user's stands in the SQL but the names of fields, which SQLite does not take as
//! parameters inside a JSON path: these must have the form of a field name. Everything else is
//! bound.
//!
//! Timestamps are compared as text. That is chronological among timestamps in UTC of the form
//! `YYYY-MM-DDTHH:MM:SS` with or without a fraction, which is the form of the bounds of time
//! ranges. A bound has no zone, so that an entry of its instant is within the range however its
//! zone is written. Where one of two timestamps in the same second has a fraction and the other
//! ends in `Z`, the text does not tell which is earlier.
use crate::entry;
use crate::entry::{is_known_key, EntryModel, LogEntry};
use crate::error::LogdiveError;
use crate::json;
use crate::query;
use crate::query::{
    is_field_name, Clause, ClauseModel, CompareOp, QueryNode, QueryValue, ValueModel,
};
use crate::query_parser;
use crate::store;
use crate::store::{select_rows, Bind, BindModel, RowModel, StoredRow};
use crate::text::{chars_of, decimal_text};
use crate::text;
use crate::time;
use crate::time::{compute_last_cutoff, parse_datetime, Instant, Timestamp};
use rusqlite::Connection;
use vstd::prelude::*;
use vstd::string::*;

verus! {

// ---------------------------------------------------------------------------
// The SQL of a query
// ---------------------------------------------------------------------------

/// Why a query has no SQL.
pub enum PlanFault {
    /// A field whose name cannot stand in a JSON path.
    Field(Seq<char>),
    /// A `since` whose datetime is in none of the accepted formats.
    Datetime(Seq<char>),
}

/// Whether `e` reports `fault`.
pub open spec fn reports(e: LogdiveError, fault: PlanFault) -> bool {
    match fault {
        PlanFault::Field(name) => e matches LogdiveError::UnsafeFieldName(n) && n@ == name,
        PlanFault::Datetime(s) => e matches LogdiveError::InvalidDatetime { input, reason }
            && input@ == s && reason@ == time::datetime_reason(),
    }
}

/// A fault is reported by the error that names the field, or the datetime and what is expected of
/// one.
pub proof fn faults_are_named(name: String, input: String, reason: String, other: Seq<char>)
    ensures
        reports(LogdiveError::UnsafeFieldName(name), PlanFault::Field(other)) <==> name@ == other,
        reports(LogdiveError::InvalidDatetime { input, reason }, PlanFault::Datetime(other)) <==> (
        input@ == other && reason@ == "expected RFC3339, `YYYY-MM-DD HH:MM:SS`, or `YYYY-MM-DD`"@),
        !reports(LogdiveError::UnsafeFieldName(name), PlanFault::Datetime(other)),
        !reports(LogdiveError::InvalidDatetime { input, reason }, PlanFault::Field(other)),
{
}

/// The SQL expression of a field: a column of its own, or a member of the JSON in `fields`.
pub open spec fn column(field: Seq<char>) -> Result<Seq<char>, PlanFault> {
    if entry::known_key(field) {
        Ok(field)
    } else if query::field_name(field) {
        Ok("json_extract(fields, '$."@ + field + "')"@)
    } else {
        Err(PlanFault::Field(field))
    }
}

/// How a comparison is written in SQL. A field that an entry does not have differs from every
/// value, which `!=` would not say of it.
pub open spec fn sql_operator(op: CompareOp) -> Seq<char> {
    match op {
        CompareOp::Eq => "="@,
        CompareOp::NotEq => "IS NOT"@,
        CompareOp::Gt => ">"@,
        CompareOp::Lt => "<"@,
    }
}

/// How a value is bound: a truth value as 0 or 1, anything else as itself.
pub open spec fn bound(value: ValueModel) -> BindModel {
    match value {
        ValueModel::Text(t) => BindModel::Text(t),
        ValueModel::Integer(n) => BindModel::Integer(n),
        ValueModel::Float(t) => BindModel::Real(t),
        ValueModel::Bool(b) => BindModel::Integer(if b { 1 } else { 0 }),
    }
}

/// The characters that `LIKE` does not take literally: its wildcards and the escape character.
pub open spec fn like_special(c: char) -> bool {
    c == '\\' || c == '%' || c == '_'
}

/// A text with the escape character in front of whatever `LIKE` does not take literally.
pub open spec fn escaped(s: Seq<char>) -> Seq<char>
    decreases s.len(),
{
    if s.len() == 0 {
        s
    } else if like_special(s.last()) {
        escaped(s.drop_last()).push('\\').push(s.last())
    } else {
        escaped(s.drop_last()).push(s.last())
    }
}

/// The pattern that a text with `s` in it matches.
pub open spec fn containing(s: Seq<char>) -> Seq<char> {
    "%"@ + escaped(s) + "%"@
}

/// The condition of a clause, with its one placeholder, and the value that is bound to it.
pub open spec fn condition(clause: ClauseModel, now: Instant) -> Result<
    (Seq<char>, BindModel),
    PlanFault,
> {
    match clause {
        ClauseModel::Compare { field, op, value } => match column(field) {
            Ok(expr) => Ok((expr + " "@ + sql_operator(op) + " ?"@, bound(value))),
            Err(fault) => Err(fault),
        },
        ClauseModel::Contains { field, value } => match column(field) {
            Ok(expr) => Ok((expr + " LIKE ? ESCAPE '\\'"@, BindModel::Text(containing(value)))),
            Err(fault) => Err(fault),
        },
        ClauseModel::LastDuration(d) => Ok(
            (
                "timestamp >= ?"@,
                BindModel::Text(
                    time::bound_text(time::cutoff(now, query::duration_seconds(d))),
                ),
            ),
        ),
        ClauseModel::SinceDatetime(s) => match time::since_instant(s) {
            Some(t) => Ok(("timestamp >= ?"@, BindModel::Text(time::bound_text(t)))),
            None => Err(PlanFault::Datetime(s)),
        },
    }
}

/// The conditions of a query and their values, or what is wrong with the first clause that has
/// none.
pub open spec fn conditions(clauses: Seq<ClauseModel>, now: Instant) -> Result<
    (Seq<Seq<char>>, Seq<BindModel>),
    PlanFault,
>
    decreases clauses.len(),
{
    if clauses.len() == 0 {
        Ok((seq![], seq![]))
    } else {
        match conditions(clauses.drop_last(), now) {
            Ok((parts, binds)) => match condition(clauses.last(), now) {
                Ok((part, bind)) => Ok((parts.push(part), binds.push(bind))),
                Err(fault) => Err(fault),
            },
            Err(fault) => Err(fault),
        }
    }
}

/// All conditions at once. Without any, every row will do.
pub open spec fn conjoined(parts: Seq<Seq<char>>) -> Seq<char>
    decreases parts.len(),
{
    if parts.len() == 0 {
        "1=1"@
    } else if parts.len() == 1 {
        parts[0]
    } else {
        conjoined(parts.drop_last()) + " AND "@ + parts.last()
    }
}

/// What caps the number of rows, if anything does.
pub open spec fn limit_text(limit: Option<nat>) -> Seq<char> {
    match limit {
        Some(n) => " LIMIT "@ + text::decimal(n),
        None => seq![],
    }
}

/// The statement that selects the rows under a condition, newest first.
pub open spec fn select_text(condition: Seq<char>, limit: Option<nat>) -> Seq<char> {
    "SELECT timestamp, level, message, tag, fields, raw FROM log_entries WHERE "@ + condition
        + " ORDER BY timestamp DESC, id DESC"@ + limit_text(limit)
}

/// The statement of a query and the values to bind.
pub open spec fn selection(clauses: Seq<ClauseModel>, limit: Option<nat>, now: Instant) -> Result<
    (Seq<char>, Seq<BindModel>),
    PlanFault,
> {
    match conditions(clauses, now) {
        Ok((parts, binds)) => Ok((select_text(conjoined(parts), limit), binds)),
        Err(fault) => Err(fault),
    }
}

/// Whether a text is the statement of some query.
pub open spec fn is_selection(sql: Seq<char>) -> bool {
    exists|clauses: Seq<ClauseModel>, limit: Option<nat>, now: Instant|
        (#[trigger] selection(clauses, limit, now)) is Ok && selection(
            clauses,
            limit,
            now,
        )->Ok_0.0 == sql
}

// ---------------------------------------------------------------------------
// Laws
// ---------------------------------------------------------------------------

/// Whether two clauses are the same but for the value, the duration or the datetime.
pub open spec fn same_shape(a: ClauseModel, b: ClauseModel) -> bool {
    match a {
        ClauseModel::Compare { field, op, .. } => b matches ClauseModel::Compare {
            field: f,
            op: o,
            ..
        } && f == field && o == op,
        ClauseModel::Contains { field, .. } => b matches ClauseModel::Contains { field: f, .. }
            && f == field,
        ClauseModel::LastDuration(_) => b is LastDuration,
        ClauseModel::SinceDatetime(_) => b is SinceDatetime,
    }
}

proof fn conditions_do_not_depend_on_values(
    a: Seq<ClauseModel>,
    b: Seq<ClauseModel>,
    now: Instant,
    then: Instant,
)
    requires
        a.len() == b.len(),
        forall|i: int| 0 <= i < a.len() ==> same_shape(#[trigger] a[i], b[i]),
        conditions(a, now) is Ok,
        conditions(b, then) is Ok,
    ensures
        conditions(a, now)->Ok_0.0 == conditions(b, then)->Ok_0.0,
    decreases a.len(),
{
    if a.len() > 0 {
        conditions_do_not_depend_on_values(a.drop_last(), b.drop_last(), now, then);
    }
}

/// The text of a statement does not depend on the values that a query compares with, on the
/// texts that it looks for, or on its time ranges: these are bound, never spelled out.
pub proof fn values_are_bound_not_spelled_out(
    a: Seq<ClauseModel>,
    b: Seq<ClauseModel>,
    limit: Option<nat>,
    now: Instant,
    then: Instant,
)
    requires
        a.len() == b.len(),
        forall|i: int| 0 <= i < a.len() ==> same_shape(#[trigger] a[i], b[i]),
        selection(a, limit, now) is Ok,
        selection(b, limit, then) is Ok,
    ensures
        selection(a, limit, now)->Ok_0.0 == selection(b, limit, then)->Ok_0.0,
{
    conditions_do_not_depend_on_values(a, b, now, then);
}

/// There is one value to bind for each clause, in the order of the clauses.
pub proof fn one_value_for_each_clause(clauses: Seq<ClauseModel>, limit: Option<nat>, now: Instant)
    requires
        selection(clauses, limit, now) is Ok,
    ensures
        selection(clauses, limit, now)->Ok_0.1.len() == clauses.len(),
        forall|i: int|
            0 <= i < clauses.len() ==> condition(#[trigger] clauses[i], now) is Ok && condition(
                clauses[i],
                now,
            )->Ok_0.1 == selection(clauses, limit, now)->Ok_0.1[i],
    decreases clauses.len(),
{
    if clauses.len() > 0 {
        let front = clauses.drop_last();
        one_value_for_each_clause(front, limit, now);
        assert forall|i: int| 0 <= i < clauses.len() implies condition(
            #[trigger] clauses[i],
            now,
        ) is Ok && condition(clauses[i], now)->Ok_0.1 == selection(
            clauses,
            limit,
            now,
        )->Ok_0.1[i] by {
            if i < front.len() {
                assert(front[i] == clauses[i]);
            }
        }
    }
}

/// The texts that conditions are made of, but for the names of fields, and how often a question
/// mark stands in each.
proof fn placeholders_in_fixed_texts()
    ensures
        text::occurrences("json_extract(fields, '$."@, '?') == 0,
        text::occurrences("')"@, '?') == 0,
        text::occurrences(" "@, '?') == 0,
        text::occurrences("="@, '?') == 0,
        text::occurrences("IS NOT"@, '?') == 0,
        text::occurrences(">"@, '?') == 0,
        text::occurrences("<"@, '?') == 0,
        text::occurrences(" ?"@, '?') == 1,
        text::occurrences(" LIKE ? ESCAPE '\\'"@, '?') == 1,
        text::occurrences("timestamp >= ?"@, '?') == 1,
        text::occurrences(" AND "@, '?') == 0,
        text::occurrences("1=1"@, '?') == 0,
        text::occurrences("timestamp"@, '?') == 0,
        text::occurrences("level"@, '?') == 0,
        text::occurrences("message"@, '?') == 0,
        text::occurrences("tag"@, '?') == 0,
        text::occurrences(" ORDER BY timestamp DESC, id DESC"@, '?') == 0,
        text::occurrences(" LIMIT "@, '?') == 0,
        text::occurrences(
            "SELECT timestamp, level, message, tag, fields, raw FROM log_entries WHERE "@,
            '?',
        ) == 0,
{
    reveal_with_fuel(text::occurrences_before, 80);
    reveal_strlit("json_extract(fields, '$.");
    reveal_strlit("')");
    reveal_strlit(" ");
    reveal_strlit("=");
    reveal_strlit("IS NOT");
    reveal_strlit(">");
    reveal_strlit("<");
    reveal_strlit(" ?");
    reveal_strlit(" LIKE ? ESCAPE '\\'");
    reveal_strlit("timestamp >= ?");
    reveal_strlit(" AND ");
    reveal_strlit("1=1");
    reveal_strlit("timestamp");
    reveal_strlit("level");
    reveal_strlit("message");
    reveal_strlit("tag");
    reveal_strlit(" ORDER BY timestamp DESC, id DESC");
    reveal_strlit(" LIMIT ");
    reveal_strlit("SELECT timestamp, level, message, tag, fields, raw FROM log_entries WHERE ");
}

/// A condition has one placeholder.
proof fn one_placeholder(clause: ClauseModel, now: Instant)
    requires
        condition(clause, now) is Ok,
    ensures
        text::occurrences(condition(clause, now)->Ok_0.0, '?') == 1,
{
    placeholders_in_fixed_texts();
    if let Some(field) = query::clause_field(clause) {
        let expr = column(field)->Ok_0;
        if !entry::known_key(field) {
            text::occurrences_of_absent(field, '?', field.len() as int);
            text::occurrences_add("json_extract(fields, '$."@, field, '?');
            text::occurrences_add("json_extract(fields, '$."@ + field, "')"@, '?');
        }
        text::occurrences_add(expr, " LIKE ? ESCAPE '\\'"@, '?');
        if let ClauseModel::Compare { op, .. } = clause {
            text::occurrences_add(expr, " "@, '?');
            text::occurrences_add(expr + " "@, sql_operator(op), '?');
            text::occurrences_add(expr + " "@ + sql_operator(op), " ?"@, '?');
        }
    }
}

proof fn placeholders_in_conjunction(clauses: Seq<ClauseModel>, now: Instant)
    requires
        conditions(clauses, now) is Ok,
    ensures
        text::occurrences(conjoined(conditions(clauses, now)->Ok_0.0), '?') == clauses.len(),
        conditions(clauses, now)->Ok_0.0.len() == clauses.len(),
    decreases clauses.len(),
{
    placeholders_in_fixed_texts();
    if clauses.len() > 0 {
        let front = clauses.drop_last();
        placeholders_in_conjunction(front, now);
        one_placeholder(clauses.last(), now);
        let parts = conditions(clauses, now)->Ok_0.0;
        let before = conditions(front, now)->Ok_0.0;
        assert(parts.drop_last() == before);
        if parts.len() > 1 {
            text::occurrences_add(conjoined(before), " AND "@, '?');
            text::occurrences_add(conjoined(before) + " AND "@, parts.last(), '?');
        }
    }
}

/// The statement of a query has as many placeholders as there are values to bind.
pub proof fn placeholders_match_values(
    clauses: Seq<ClauseModel>,
    limit: Option<nat>,
    now: Instant,
)
    requires
        selection(clauses, limit, now) is Ok,
    ensures
        text::occurrences(selection(clauses, limit, now)->Ok_0.0, '?') == selection(
            clauses,
            limit,
            now,
        )->Ok_0.1.len(),
{
    placeholders_in_fixed_texts();
    placeholders_in_conjunction(clauses, now);
    one_value_for_each_clause(clauses, limit, now);
    let prefix = "SELECT timestamp, level, message, tag, fields, raw FROM log_entries WHERE "@;
    let conditions_text = conjoined(conditions(clauses, now)->Ok_0.0);
    let order = " ORDER BY timestamp DESC, id DESC"@;
    text::occurrences_add(prefix, conditions_text, '?');
    text::occurrences_add(prefix + conditions_text, order, '?');
    text::occurrences_add(prefix + conditions_text + order, limit_text(limit), '?');
    if let Some(n) = limit {
        text::decimal_denotes(n);
        let numeral = text::decimal(n);
        text::occurrences_of_absent(numeral, '?', numeral.len() as int);
        text::occurrences_add(" LIMIT "@, numeral, '?');
    }
}

proof fn valid_names_make_no_fault(clauses: Seq<ClauseModel>, now: Instant)
    requires
        query_parser::names_are_valid(clauses),
    ensures
        !(conditions(clauses, now) matches Err(PlanFault::Field(_))),
    decreases clauses.len(),
{
    if clauses.len() > 0 {
        valid_names_make_no_fault(clauses.drop_last(), now);
    }
}

/// A query that was parsed is never refused for the name of a field.
pub proof fn parsed_queries_name_safe_fields(s: Seq<char>, limit: Option<nat>, now: Instant)
    requires
        query_parser::parsed(s) is Ok,
    ensures
        !(selection(query_parser::parsed(s)->Ok_0, limit, now) matches Err(PlanFault::Field(_))),
{
    query_parser::queries_are_safe(s);
    valid_names_make_no_fault(query_parser::parsed(s)->Ok_0, now);
}

/// A value is bound as what it is: a text as that very text, an integer as that integer, a fraction
/// as it is written, and a truth value as 1 or 0.
pub proof fn values_are_bound_as_they_are(
    field: Seq<char>,
    op: CompareOp,
    t: Seq<char>,
    n: int,
    now: Instant,
)
    requires
        condition(ClauseModel::Compare { field, op, value: ValueModel::Text(t) }, now) is Ok,
    ensures
        ({
            let bind = |value: ValueModel|
                condition(ClauseModel::Compare { field, op, value }, now)->Ok_0.1;
            &&& bind(ValueModel::Text(t)) == BindModel::Text(t)
            &&& bind(ValueModel::Integer(n)) == BindModel::Integer(n)
            &&& bind(ValueModel::Float(t)) == BindModel::Real(t)
            &&& bind(ValueModel::Bool(true)) == BindModel::Integer(1)
            &&& bind(ValueModel::Bool(false)) == BindModel::Integer(0)
        }),
{
}

/// Conditions are joined by `AND` in their order; one alone stands as it is, and without any every
/// row will do.
pub proof fn conditions_are_joined(a: Seq<Seq<char>>, b: Seq<Seq<char>>, part: Seq<char>)
    requires
        a.len() > 0,
        b.len() > 0,
    ensures
        conjoined(a + b) == conjoined(a) + " AND "@ + conjoined(b),
        conjoined(seq![part]) == part,
        conjoined(seq![]) == "1=1"@,
    decreases b.len(),
{
    let all = a + b;
    assert(all.drop_last() == a + b.drop_last());
    assert(all.last() == b.last());
    if b.len() == 1 {
        assert(a + b.drop_last() == a);
        assert(conjoined(b) == b[0]);
    } else {
        conditions_are_joined(a, b.drop_last(), part);
        let front = conjoined(b.drop_last());
        assert(conjoined(a) + " AND "@ + front + " AND "@ + b.last() == conjoined(a) + " AND "@ + (
        front + " AND "@ + b.last()));
    }
}

/// The condition of a query of one clause is that of the clause.
pub proof fn one_clause_has_its_condition(clause: ClauseModel, now: Instant)
    ensures
        match condition(clause, now) {
            Ok((part, bind)) => conditions(seq![clause], now) == Ok::<_, PlanFault>(
                (seq![part], seq![bind]),
            ),
            Err(fault) => conditions(seq![clause], now) == Err::<
                (Seq<Seq<char>>, Seq<BindModel>),
                _,
            >(fault),
        },
{
    let one = seq![clause];
    assert(one.drop_last() == Seq::<ClauseModel>::empty());
    assert(conditions(one.drop_last(), now) == Ok::<_, PlanFault>(
        (Seq::<Seq<char>>::empty(), Seq::<BindModel>::empty()),
    ));
    if let Ok((part, bind)) = condition(clause, now) {
        assert(Seq::<Seq<char>>::empty().push(part) == seq![part]);
        assert(Seq::<BindModel>::empty().push(bind) == seq![bind]);
    }
}

/// The statement of a query selects the columns of an entry from the rows under its conditions,
/// newest first. A limit is spelled out behind it, and changes nothing else.
pub proof fn statements_select_newest_first(
    clauses: Seq<ClauseModel>,
    n: nat,
    now: Instant,
)
    requires
        conditions(clauses, now) is Ok,
    ensures
        ({
            let (parts, binds) = conditions(clauses, now)->Ok_0;
            let sql = "SELECT timestamp, level, message, tag, fields, raw FROM log_entries WHERE "@
                + conjoined(parts) + " ORDER BY timestamp DESC, id DESC"@;
            &&& selection(clauses, None, now) == Ok::<_, PlanFault>((sql, binds))
            &&& selection(clauses, Some(n), now) == Ok::<_, PlanFault>(
                (sql + (" LIMIT "@ + text::decimal(n)), binds),
            )
        }),
{
    let (parts, _) = conditions(clauses, now)->Ok_0;
    let sql = "SELECT timestamp, level, message, tag, fields, raw FROM log_entries WHERE "@
        + conjoined(parts) + " ORDER BY timestamp DESC, id DESC"@;
    assert(sql + Seq::<char>::empty() == sql);
}

// ---------------------------------------------------------------------------
// Making the SQL
// ---------------------------------------------------------------------------

/// Whether a name may stand in a JSON path: a letter or `_`, and then letters, digits, `_` and
/// `.`.
///
/// The parser lets no other name through; this is where SQL is made, so it is asked again here.
pub fn is_safe_json_path_segment(s: &str) -> (r: bool)
    ensures
        r == query::field_name(s@),
{
    is_field_name(s)
}

/// The SQL expression of a field.
pub fn column_for_field(field: &str) -> (r: Result<String, LogdiveError>)
    ensures
        match column(field@) {
            Ok(expr) => r matches Ok(t) && t@ == expr,
            Err(fault) => r matches Err(e) && reports(e, fault),
        },
{
    if is_known_key(field) {
        return Ok(field.to_owned());
    }
    if !is_safe_json_path_segment(field) {
        return Err(LogdiveError::UnsafeFieldName(field.to_owned()));
    }
    let mut expr = "json_extract(fields, '$.".to_owned();
    expr.append(field);
    expr.append("')");
    Ok(expr)
}

/// How a comparison is written in SQL.
fn sql_operator_text(op: CompareOp) -> (r: &'static str)
    ensures
        r@ == sql_operator(op),
{
    match op {
        CompareOp::Eq => "=",
        CompareOp::NotEq => "IS NOT",
        CompareOp::Gt => ">",
        CompareOp::Lt => "<",
    }
}

/// How a value is bound.
pub fn value_to_bind(v: &QueryValue) -> (r: Bind)
    ensures
        r@ == bound(v@),
{
    match v {
        QueryValue::String(s) => Bind::Text(s.clone()),
        QueryValue::Integer(n) => Bind::Integer(*n),
        QueryValue::Float(f) => Bind::Real(f.clone()),
        QueryValue::Bool(b) => Bind::Integer(if *b {
            1
        } else {
            0
        }),
    }
}

/// A text with the escape character in front of whatever `LIKE` does not take literally.
pub fn escape_like(input: &str) -> (r: String)
    ensures
        r@ == escaped(input@),
{
    let chars = chars_of(input);
    let mut out = String::new();
    let mut i: usize = 0;
    while i < chars.len()
        invariant
            i <= chars@.len(),
            chars@ == input@,
            out@ == escaped(input@.take(i as int)),
        decreases chars@.len() - i,
    {
        let c = chars[i];
        if c == '\\' || c == '%' || c == '_' {
            out.push('\\');
        }
        out.push(c);
        assert(input@.take(i + 1).drop_last() == input@.take(i as int));
        i = i + 1;
    }
    assert(input@.take(i as int) == input@);
    out
}

/// The condition of a clause and the value to bind.
pub fn translate_clause(clause: &Clause, now: Timestamp) -> (r: Result<
    (String, Bind),
    LogdiveError,
>)
    ensures
        match condition(clause@, now@) {
            Ok((part, bind)) => r matches Ok((p, b)) && p@ == part && b@ == bind,
            Err(fault) => r matches Err(e) && reports(e, fault),
        },
{
    match clause {
        Clause::Compare { field, op, value } => {
            let mut sql = match column_for_field(field.as_str()) {
                Ok(expr) => expr,
                Err(e) => {
                    return Err(e);
                },
            };
            sql.append(" ");
            sql.append(sql_operator_text(*op));
            sql.append(" ?");
            Ok((sql, value_to_bind(value)))
        },
        Clause::Contains { field, value } => {
            let mut sql = match column_for_field(field.as_str()) {
                Ok(expr) => expr,
                Err(e) => {
                    return Err(e);
                },
            };
            sql.append(" LIKE ? ESCAPE '\\'");
            let mut pattern = "%".to_owned();
            pattern.append(escape_like(value.as_str()).as_str());
            pattern.append("%");
            Ok((sql, Bind::Text(pattern)))
        },
        Clause::LastDuration(d) => {
            let cutoff = compute_last_cutoff(*d, now);
            Ok(("timestamp >= ?".to_owned(), Bind::Text(cutoff.to_bound())))
        },
        Clause::SinceDatetime(s) => match parse_datetime(s.as_str()) {
            Ok(t) => Ok(("timestamp >= ?".to_owned(), Bind::Text(t.to_bound()))),
            Err(e) => Err(e),
        },
    }
}

/// A clause without a condition decides, whatever clauses follow.
proof fn first_fault_decides(clauses: Seq<ClauseModel>, k: int, now: Instant)
    requires
        0 <= k <= clauses.len(),
        conditions(clauses.take(k), now) is Err,
    ensures
        conditions(clauses, now) == conditions(clauses.take(k), now),
    decreases clauses.len(),
{
    if k == clauses.len() {
        assert(clauses.take(k) == clauses);
    } else {
        assert(clauses.drop_last().take(k) == clauses.take(k));
        first_fault_decides(clauses.drop_last(), k, now);
    }
}

/// The statement of a query, and the values to bind.
///
/// The conditions stand in the order of the clauses, and so do their values.
pub fn build_sql(query: &QueryNode, limit: Option<usize>, now: Timestamp) -> (r: Result<
    (String, Vec<Bind>),
    LogdiveError,
>)
    ensures
        match selection(query@, limit_of(limit), now@) {
            Ok((sql, binds)) => r matches Ok((t, b)) && t@ == sql && store::bind_models(b@)
                == binds,
            Err(fault) => r matches Err(e) && reports(e, fault),
        },
{
    let QueryNode::And(clauses) = query;
    let ghost models = query::clause_models(clauses@);
    let mut where_sql = String::new();
    let mut binds: Vec<Bind> = Vec::new();
    let ghost mut parts: Seq<Seq<char>> = seq![];
    let mut i: usize = 0;
    assert(store::bind_models(binds@) == Seq::<BindModel>::empty());
    while i < clauses.len()
        invariant
            i <= clauses@.len(),
            models == query::clause_models(clauses@),
            models == query@,
            conditions(models.take(i as int), now@) == Ok::<_, PlanFault>(
                (parts, store::bind_models(binds@)),
            ),
            parts.len() == i,
            where_sql@ == (if i == 0 {
                seq![]
            } else {
                conjoined(parts)
            }),
        decreases clauses@.len() - i,
    {
        assert(models.take(i + 1).drop_last() == models.take(i as int));
        match translate_clause(&clauses[i], now) {
            Ok((part, bind)) => {
                if i > 0 {
                    where_sql.append(" AND ");
                }
                where_sql.append(part.as_str());
                let ghost before = binds@;
                binds.push(bind);
                proof {
                    let grown = parts.push(part@);
                    assert(grown.drop_last() == parts);
                    parts = grown;
                    assert(store::bind_models(binds@) == store::bind_models(before).push(bind@));
                }
            },
            Err(e) => {
                proof {
                    first_fault_decides(models, i + 1, now@);
                }
                return Err(e);
            },
        }
        i = i + 1;
    }
    assert(models.take(i as int) == models);
    if clauses.len() == 0 {
        where_sql.append("1=1");
    }
    let mut sql =
        "SELECT timestamp, level, message, tag, fields, raw FROM log_entries WHERE ".to_owned();
    sql.append(where_sql.as_str());
    sql.append(" ORDER BY timestamp DESC, id DESC");
    if let Some(n) = limit {
        let mut cap = " LIMIT ".to_owned();
        cap.append(decimal_text(n as u64).as_str());
        sql.append(cap.as_str());
    }
    Ok((sql, binds))
}

// ---------------------------------------------------------------------------
// The entries of an answer
// ---------------------------------------------------------------------------

/// The cap on the number of rows, if there is one.
pub open spec fn limit_of(limit: Option<usize>) -> Option<nat> {
    match limit {
        Some(n) => Some(n as nat),
        None => None,
    }
}

/// A limit caps the rows at its own number.
pub proof fn limits_cap_at_their_number(n: usize)
    ensures
        limit_of(Some(n)) == Some(n as nat),
        limit_of(None) is None,
{
}

/// Why an answer has no entries.
pub enum RowFault {
    /// A row could not be had, for this reason.
    Store(rusqlite::Error),
    /// These `fields` of a row are not a JSON object.
    Fields(Seq<char>),
}

/// Whether `e` reports `fault`.
pub open spec fn reports_row(e: LogdiveError, fault: RowFault) -> bool {
    match fault {
        RowFault::Store(cause) => e == LogdiveError::Sqlite(cause),
        RowFault::Fields(text) => e matches LogdiveError::CorruptFieldsJson(cause)
            && json::members_refused(text, cause),
    }
}

/// The entry that a row holds, given what its `fields` read as.
pub open spec fn entry_of_row_with(row: RowModel, fields: Map<Seq<char>, json::Json>) -> EntryModel {
    EntryModel {
        timestamp: row.timestamp,
        level: row.level,
        message: row.message,
        tag: row.tag,
        fields,
        raw: row.raw,
    }
}

/// The entry that a row holds, if its `fields` are a JSON object.
pub open spec fn entry_of_row(row: RowModel) -> Option<EntryModel> {
    match json::members_read(row.fields) {
        Some(fields) => Some(entry_of_row_with(row, fields)),
        None => None,
    }
}

/// A row is read column by column: what is in a column is in the entry, and the JSON of `fields` is
/// read.
pub proof fn rows_are_read_column_by_column(row: RowModel)
    ensures
        match json::members_read(row.fields) {
            Some(members) => entry_of_row(row) matches Some(e) && e.timestamp == row.timestamp
                && e.level == row.level && e.message == row.message && e.tag == row.tag && e.fields
                == members && e.raw == row.raw,
            None => entry_of_row(row) is None,
        },
{
}

/// The entries of an answer, or what is wrong with the first row that has none.
pub open spec fn entries_of(answers: Seq<Result<RowModel, rusqlite::Error>>) -> Result<
    Seq<EntryModel>,
    RowFault,
>
    decreases answers.len(),
{
    if answers.len() == 0 {
        Ok(seq![])
    } else {
        match entries_of(answers.drop_last()) {
            Ok(entries) => match answers.last() {
                Err(e) => Err(RowFault::Store(e)),
                Ok(row) => match entry_of_row(row) {
                    Some(entry) => Ok(entries.push(entry)),
                    None => Err(RowFault::Fields(row.fields)),
                },
            },
            Err(fault) => Err(fault),
        }
    }
}

/// What a list of entries says.
pub open spec fn entry_models(entries: Seq<LogEntry>) -> Seq<EntryModel> {
    entries.map_values(|e: LogEntry| e@)
}

/// The entries of two answers after each other are those of the first and then those of the second;
/// where the first has a row without an entry, that decides, whatever follows.
pub proof fn answers_add_up(
    a: Seq<Result<RowModel, rusqlite::Error>>,
    b: Seq<Result<RowModel, rusqlite::Error>>,
)
    ensures
        entries_of(a + b) == match (entries_of(a), entries_of(b)) {
            (Ok(x), Ok(y)) => Ok(x + y),
            (Ok(_), Err(fault)) => Err(fault),
            (Err(fault), _) => Err(fault),
        },
    decreases b.len(),
{
    if b.len() == 0 {
        assert(a + b == a);
        if let Ok(x) = entries_of(a) {
            assert(x + Seq::<EntryModel>::empty() == x);
        }
    } else {
        answers_add_up(a, b.drop_last());
        assert((a + b).drop_last() == a + b.drop_last());
        if entries_of(a) is Ok && entries_of(b) is Ok {
            let x = entries_of(a)->Ok_0;
            let front = entries_of(b.drop_last())->Ok_0;
            let y = entries_of(b)->Ok_0;
            assert((x + front).push(y.last()) == x + front.push(y.last()));
        }
    }
}

/// An answer of one row has the entry of that row, or says why there is none.
pub proof fn one_row_has_its_entry(row: RowModel, e: rusqlite::Error)
    ensures
        entries_of(seq![Ok(row)]) == match entry_of_row(row) {
            Some(entry) => Ok::<_, RowFault>(seq![entry]),
            None => Err(RowFault::Fields(row.fields)),
        },
        entries_of(seq![Err(e)]) == Err::<Seq<EntryModel>, _>(RowFault::Store(e)),
{
    let had = seq![Ok::<RowModel, rusqlite::Error>(row)];
    let lost = seq![Err::<RowModel, rusqlite::Error>(e)];
    let none = Seq::<Result<RowModel, rusqlite::Error>>::empty();
    assert(had.drop_last() == none && lost.drop_last() == none);
    assert(entries_of(none) == Ok::<_, RowFault>(Seq::<EntryModel>::empty()));
    if let Some(entry) = entry_of_row(row) {
        assert(Seq::<EntryModel>::empty().push(entry) == seq![entry]);
    }
}

proof fn first_row_fault_decides(answers: Seq<Result<RowModel, rusqlite::Error>>, k: int)
    requires
        0 <= k <= answers.len(),
        entries_of(answers.take(k)) is Err,
    ensures
        entries_of(answers) == entries_of(answers.take(k)),
    decreases answers.len(),
{
    if k == answers.len() {
        assert(answers.take(k) == answers);
    } else {
        assert(answers.drop_last().take(k) == answers.take(k));
        first_row_fault_decides(answers.drop_last(), k);
    }
}

/// An answer with entries had every row, one for each entry.
pub proof fn entries_come_from_rows(answers: Seq<Result<RowModel, rusqlite::Error>>)
    ensures
        entries_of(answers) matches Ok(entries) ==> entries.len() == answers.len()
            && store::all_rows_had(answers) && forall|i: int|
            0 <= i < answers.len() ==> entry_of_row((#[trigger] answers[i])->Ok_0) == Some(
                entries[i],
            ),
    decreases answers.len(),
{
    if answers.len() > 0 {
        entries_come_from_rows(answers.drop_last());
        if entries_of(answers) is Ok {
            let entries = entries_of(answers)->Ok_0;
            assert forall|i: int| 0 <= i < answers.len() implies (#[trigger] answers[i]) is Ok
                && entry_of_row(answers[i]->Ok_0) == Some(entries[i]) by {
                if i < answers.len() - 1 {
                    assert(answers.drop_last()[i] == answers[i]);
                }
            }
        }
    }
}

/// The entries that the rows of an answer hold.
pub fn rows_to_entries(rows: Vec<Result<StoredRow, rusqlite::Error>>) -> (r: Result<
    Vec<LogEntry>,
    LogdiveError,
>)
    ensures
        match entries_of(store::answers_of(rows@)) {
            Ok(entries) => r matches Ok(list) && entry_models(list@) == entries,
            Err(fault) => r matches Err(e) && reports_row(e, fault),
        },
        r matches Err(LogdiveError::Sqlite(e)) ==> exists|k: int|
            0 <= k < rows@.len() && #[trigger] rows@[k] == Err::<StoredRow, rusqlite::Error>(e)
                && entries_of(store::answers_of(rows@).take(k)) is Ok,
{
    let ghost answers = store::answers_of(rows@);
    let mut out: Vec<LogEntry> = Vec::new();
    proof {
        assert(entry_models(out@) == Seq::<EntryModel>::empty());
    }
    for row in it: rows.into_iter()
        invariant
            answers == store::answers_of(it.seq()),
            entries_of(answers.take(it.index())) == Ok::<_, RowFault>(entry_models(out@)),
    {
        let ghost k = it.index();
        proof {
            assert(answers.take(k + 1).drop_last() == answers.take(k));
        }
        match row {
            Ok(stored) => match json::read_members(stored.fields.as_str()) {
                Ok(fields) => {
                    let entry = LogEntry {
                        timestamp: stored.timestamp,
                        level: stored.level,
                        message: stored.message,
                        tag: stored.tag,
                        fields,
                        raw: stored.raw,
                    };
                    let ghost before = out@;
                    let ghost model = entry@;
                    out.push(entry);
                    assert(entry_models(out@) == entry_models(before).push(model));
                },
                Err(e) => {
                    proof {
                        first_row_fault_decides(answers, k + 1);
                    }
                    return Err(LogdiveError::CorruptFieldsJson(e));
                },
            },
            Err(e) => {
                proof {
                    first_row_fault_decides(answers, k + 1);
                }
                return Err(LogdiveError::Sqlite(e));
            },
        }
    }
    assert(answers.take(answers.len() as int) == answers);
    Ok(out)
}

// ---------------------------------------------------------------------------
// Execution
// ---------------------------------------------------------------------------

/// What running a statement comes to, whatever the database answered: the entries of an answer
/// that it gave to this statement, or what is wrong with the first row of it that has none, or why
/// there is no answer.
pub open spec fn outcome(
    conn: Connection,
    sql: Seq<char>,
    binds: Seq<BindModel>,
    r: Result<Vec<LogEntry>, LogdiveError>,
) -> bool {
    ||| r matches Err(LogdiveError::Sqlite(e)) && store::query_refused(conn, sql, binds, e)
    ||| exists|answers: Seq<Result<RowModel, rusqlite::Error>>| #[trigger]
        store::answered(conn, sql, binds, answers) && match entries_of(answers) {
            Ok(entries) => r matches Ok(list) && entry_models(list@) == entries,
            Err(fault) => r matches Err(e) && reports_row(e, fault),
        }
}

/// What executing a query comes to: that of its statement with its values, or why it has none.
pub open spec fn executed(
    clauses: Seq<ClauseModel>,
    conn: Connection,
    limit: Option<usize>,
    now: Instant,
    r: Result<Vec<LogEntry>, LogdiveError>,
) -> bool {
    match selection(clauses, limit_of(limit), now) {
        Ok((sql, binds)) => outcome(conn, sql, binds, r),
        Err(fault) => r matches Err(e) && reports(e, fault),
    }
}

/// A query is executed with its own limit and its own conditions, all of them: what it comes to is
/// what the statement comes to that spells these out. One without a statement is refused.
pub proof fn queries_are_executed_as_they_are(
    clauses: Seq<ClauseModel>,
    conn: Connection,
    n: usize,
    now: Instant,
    r: Result<Vec<LogEntry>, LogdiveError>,
    all: Result<Vec<LogEntry>, LogdiveError>,
)
    requires
        executed(clauses, conn, Some(n), now, r),
        executed(clauses, conn, None, now, all),
    ensures
        match conditions(clauses, now) {
            Ok((parts, binds)) => {
                let sql =
                    "SELECT timestamp, level, message, tag, fields, raw FROM log_entries WHERE "@
                    + conjoined(parts) + " ORDER BY timestamp DESC, id DESC"@;
                &&& outcome(conn, sql, binds, all)
                &&& outcome(conn, sql + (" LIMIT "@ + text::decimal(n as nat)), binds, r)
            },
            Err(fault) => (r matches Err(e) && reports(e, fault)) && (all matches Err(e) && reports(
                e,
                fault,
            )),
        },
{
    if conditions(clauses, now) is Ok {
        statements_select_newest_first(clauses, n as nat, now);
    }
}

/// Run a statement and read the entries of its answer.
///
/// A statement that was made for a limit yields no more entries than that.
fn run(conn: &Connection, sql: &str, binds: &Vec<Bind>) -> (r: Result<Vec<LogEntry>, LogdiveError>)
    requires
        is_selection(sql@),
    ensures
        outcome(*conn, sql@, store::bind_models(binds@), r),
        r matches Ok(list) ==> forall|clauses: Seq<ClauseModel>, n: nat, now: Instant|
            (#[trigger] selection(clauses, Some(n), now) matches Ok((text, _)) && text == sql@)
                ==> list@.len() <= n,
{
    match select_rows(conn, sql, binds) {
        Ok(rows) => {
            let ghost answers = store::answers_of(rows@);
            proof {
                entries_come_from_rows(answers);
            }
            rows_to_entries(rows)
        },
        Err(e) => Err(LogdiveError::Sqlite(e)),
    }
}

/// The entries that match a query, newest first, and no more than `limit` of them.
///
/// "Now", where a time range ends, is given. What matches, and the order of the entries, is for
/// the database to say, which is handed the statement of [`build_sql`].
pub fn execute_at(
    query: &QueryNode,
    conn: &Connection,
    limit: Option<usize>,
    now: Timestamp,
) -> (r: Result<Vec<LogEntry>, LogdiveError>)
    ensures
        executed(query@, *conn, limit, now@, r),
        r matches Ok(list) ==> limit matches Some(n) ==> list@.len() <= n,
{
    match build_sql(query, limit, now) {
        Ok((sql, binds)) => {
            let found = run(conn, sql.as_str(), &binds);
            found
        },
        Err(e) => Err(e),
    }
}

/// The entries that match a query at present, newest first, and no more than `limit` of them.
///
/// "Now", where a time range ends, is read off the system's clock.
pub fn execute(query: &QueryNode, conn: &Connection, limit: Option<usize>) -> (r: Result<
    Vec<LogEntry>,
    LogdiveError,
>)
    ensures
        exists|now: Instant|
            time::read_off_clock(now) && time::clock_instant(now) && #[trigger] executed(
                query@,
                *conn,
                limit,
                now,
                r,
            ),
        r matches Ok(list) ==> limit matches Some(n) ==> list@.len() <= n,
{
    execute_at(query, conn, limit, Timestamp::now())
}

} // verus!
