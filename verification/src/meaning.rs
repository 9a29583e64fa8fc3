//! What a query asks of an entry, and why its statement asks the same of the entry's row.
//!
//! Nothing here runs: the conditions of a statement are for the database to judge. [`reads_sql`]
//! says what SQLite takes them for. What it does with numbers that are no 64-bit integers is left
//! to [`Reals`].
use crate::entry::EntryModel;
use crate::executor;
use crate::indexer;
use crate::json;
use crate::json::Json;
use crate::language;
use crate::like;
use crate::parser;
use crate::query;
use crate::query::{ClauseModel, CompareOp, Duration, ValueModel};
use crate::query_parser;
use crate::store::{BindModel, RowModel};
use crate::table;
use crate::text;
use crate::time;
use crate::time::Instant;
use vstd::prelude::*;

verus! {

// ---------------------------------------------------------------------------
// Values
// ---------------------------------------------------------------------------

/// What a condition finds in a field: nothing, a text, or a number, by its numeral.
pub enum Cell {
    Null,
    Text(Seq<char>),
    Number(Seq<char>),
}

/// How two values stand to each other.
pub enum Order {
    Less,
    Equal,
    Greater,
}

/// How numbers are treated that are no 64-bit integers: which text such a number has, and how two
/// numbers stand to each other of which one is such.
pub struct Reals {
    pub shown: spec_fn(Seq<char>) -> Seq<char>,
    pub order: spec_fn(Seq<char>, Seq<char>) -> Order,
}

/// Whether a numeral is that of a 64-bit integer.
pub open spec fn whole(t: Seq<char>) -> bool {
    text::numeral(query::unsigned(t)) && i64::MIN <= query_parser::integer_value(t) <= i64::MAX
}

/// The numeral of an integer.
pub open spec fn integer_text(n: int) -> Seq<char> {
    if n < 0 {
        "-"@ + text::decimal((-n) as nat)
    } else {
        text::decimal(n as nat)
    }
}

/// How two texts stand to each other.
pub open spec fn texts_order(a: Seq<char>, b: Seq<char>) -> Order {
    if a == b {
        Order::Equal
    } else if text::sorts_before(a, b) {
        Order::Less
    } else {
        Order::Greater
    }
}

/// How two numbers stand to each other.
pub open spec fn numbers_order(reals: Reals, a: Seq<char>, b: Seq<char>) -> Order {
    if whole(a) && whole(b) {
        if query_parser::integer_value(a) == query_parser::integer_value(b) {
            Order::Equal
        } else if query_parser::integer_value(a) < query_parser::integer_value(b) {
            Order::Less
        } else {
            Order::Greater
        }
    } else {
        (reals.order)(a, b)
    }
}

/// The text of a bound value.
pub open spec fn bind_text(reals: Reals, bind: BindModel) -> Seq<char> {
    match bind {
        BindModel::Text(t) => t,
        BindModel::Integer(n) => integer_text(n),
        BindModel::Real(t) => (reals.shown)(t),
    }
}

/// The text of what is in a field, if anything is.
pub open spec fn cell_text(reals: Reals, cell: Cell) -> Option<Seq<char>> {
    match cell {
        Cell::Null => None,
        Cell::Text(t) => Some(t),
        Cell::Number(t) => Some(
            if whole(t) {
                t
            } else {
                (reals.shown)(t)
            },
        ),
    }
}

/// How what is in a field stands to a bound value. A column of texts is compared with the text of
/// the value; elsewhere numbers are less than texts.
pub open spec fn cell_order(reals: Reals, cell: Cell, bind: BindModel, column: bool) -> Order {
    match cell {
        Cell::Null => Order::Less,
        Cell::Text(t) => if column {
            texts_order(t, bind_text(reals, bind))
        } else {
            match bind {
                BindModel::Text(v) => texts_order(t, v),
                BindModel::Integer(_) => Order::Greater,
                BindModel::Real(_) => Order::Greater,
            }
        },
        Cell::Number(t) => match bind {
            BindModel::Text(_) => Order::Less,
            BindModel::Integer(n) => numbers_order(reals, t, integer_text(n)),
            BindModel::Real(v) => numbers_order(reals, t, v),
        },
    }
}

/// Whether what is in a field compares so with a bound value. Where nothing is in it, it differs
/// from every value, and that is all.
pub open spec fn compares(
    reals: Reals,
    op: CompareOp,
    cell: Cell,
    bind: BindModel,
    column: bool,
) -> bool {
    let order = cell_order(reals, cell, bind, column);
    match op {
        CompareOp::Eq => cell !is Null && order is Equal,
        CompareOp::NotEq => cell is Null || order !is Equal,
        CompareOp::Gt => cell !is Null && order is Greater,
        CompareOp::Lt => cell !is Null && order is Less,
    }
}

/// Whether a timestamp is there and does not sort before a bound.
pub open spec fn not_before(timestamp: Option<Seq<char>>, bound: Seq<char>) -> bool {
    timestamp matches Some(t) && !text::sorts_before(t, bound)
}

// ---------------------------------------------------------------------------
// Fields
// ---------------------------------------------------------------------------

/// Where the first name of a path ends.
pub open spec fn first_point(path: Seq<char>) -> nat
    decreases path.len(),
{
    if path.len() == 0 || path[0] == '.' {
        0
    } else {
        1 + first_point(path.skip(1))
    }
}

/// What stands at a path of member names with points between them.
pub open spec fn member_at(members: Map<Seq<char>, Json>, path: Seq<char>) -> Option<Json>
    decreases path.len(),
{
    let end = first_point(path);
    let name = path.take(end as int);
    if !members.dom().contains(name) {
        None
    } else if end >= path.len() {
        Some(members[name])
    } else {
        match members[name] {
            Json::Object(inner) => member_at(inner, path.skip(end as int + 1)),
            _ => None,
        }
    }
}

/// What a condition finds in a JSON value: truth values are 0 and 1, and an array or an object is
/// its text.
pub open spec fn json_cell(value: Option<Json>) -> Cell {
    match value {
        None => Cell::Null,
        Some(Json::Null) => Cell::Null,
        Some(Json::Bool(b)) => Cell::Number(integer_text(if b { 1 } else { 0 })),
        Some(Json::Number(t)) => Cell::Number(t),
        Some(Json::Text(t)) => Cell::Text(t),
        Some(Json::Array(items)) => Cell::Text(json::value_printed(Json::Array(items))),
        Some(Json::Object(members)) => Cell::Text(json::value_printed(Json::Object(members))),
    }
}

/// What a condition finds in a column of texts.
pub open spec fn text_cell(t: Option<Seq<char>>) -> Cell {
    match t {
        None => Cell::Null,
        Some(t) => Cell::Text(t),
    }
}

/// What an entry has in a field: a known field of its own, or else the member at that path.
pub open spec fn entry_cell(entry: EntryModel, field: Seq<char>) -> Cell {
    if field == "timestamp"@ {
        text_cell(entry.timestamp)
    } else if field == "level"@ {
        text_cell(entry.level)
    } else if field == "message"@ {
        text_cell(entry.message)
    } else if field == "tag"@ {
        text_cell(entry.tag)
    } else {
        json_cell(member_at(entry.fields, field))
    }
}

/// What a row has under the SQL expression of a field: a column, or what `json_extract` finds in
/// its `fields`.
pub open spec fn row_cell(row: RowModel, field: Seq<char>) -> Cell {
    if field == "timestamp"@ {
        text_cell(row.timestamp)
    } else if field == "level"@ {
        text_cell(row.level)
    } else if field == "message"@ {
        text_cell(row.message)
    } else if field == "tag"@ {
        text_cell(row.tag)
    } else {
        match json::members_read(row.fields) {
            Some(members) => json_cell(member_at(members, field)),
            None => Cell::Null,
        }
    }
}

// ---------------------------------------------------------------------------
// Clauses
// ---------------------------------------------------------------------------

/// Whether a field is a column of texts.
pub open spec fn textual(field: Seq<char>) -> bool {
    field == "timestamp"@ || field == "level"@ || field == "message"@ || field == "tag"@
}

/// What a clause compares with: its own value, and a truth value as 1 or 0.
pub open spec fn value_bind(value: ValueModel) -> BindModel {
    match value {
        ValueModel::Text(t) => BindModel::Text(t),
        ValueModel::Integer(n) => BindModel::Integer(n),
        ValueModel::Float(t) => BindModel::Real(t),
        ValueModel::Bool(true) => BindModel::Integer(1),
        ValueModel::Bool(false) => BindModel::Integer(0),
    }
}

/// What a clause asks of an entry.
pub open spec fn asks(reals: Reals, clause: ClauseModel, entry: EntryModel, now: Instant) -> bool {
    match clause {
        ClauseModel::Compare { field, op, value } => compares(
            reals,
            op,
            entry_cell(entry, field),
            value_bind(value),
            textual(field),
        ),
        ClauseModel::Contains { field, value } => cell_text(
            reals,
            entry_cell(entry, field),
        ) matches Some(t) && like::contains(t, value),
        ClauseModel::LastDuration(d) => not_before(
            entry.timestamp,
            time::bound_text(time::cutoff(now, query::duration_seconds(d))),
        ),
        ClauseModel::SinceDatetime(s) => time::since_instant(s) matches Some(t) && not_before(
            entry.timestamp,
            time::bound_text(t),
        ),
    }
}

/// Whether an entry is what all clauses ask for.
pub open spec fn meets_all(
    reals: Reals,
    clauses: Seq<ClauseModel>,
    entry: EntryModel,
    now: Instant,
) -> bool {
    forall|k: int| 0 <= k < clauses.len() ==> asks(reals, #[trigger] clauses[k], entry, now)
}

/// Whether a field can stand in a condition: one of the four known fields, or a name that a field
/// may have.
pub open spec fn expressible(field: Seq<char>) -> bool {
    field == "timestamp"@ || field == "level"@ || field == "message"@ || field == "tag"@
        || query::field_name(field)
}

/// How a field is written in SQL: a known field is a column, and any other is found in the JSON of
/// `fields`.
pub open spec fn expression(field: Seq<char>) -> Seq<char> {
    if field == "timestamp"@ || field == "level"@ || field == "message"@ || field == "tag"@ {
        field
    } else {
        "json_extract(fields, '$."@ + field + "')"@
    }
}

/// The condition that compares a field.
pub open spec fn comparison(field: Seq<char>, op: CompareOp) -> Seq<char> {
    expression(field) + " "@ + match op {
        CompareOp::Eq => "="@,
        CompareOp::NotEq => "IS NOT"@,
        CompareOp::Gt => ">"@,
        CompareOp::Lt => "<"@,
    } + " ?"@
}

/// The condition that matches a field with a pattern.
pub open spec fn matching(field: Seq<char>) -> Seq<char> {
    expression(field) + " LIKE ? ESCAPE '\\'"@
}

/// Whether conditions are taken for what they say in SQL: comparisons of what a row has under the
/// expression of a field, `LIKE` with a pattern, and `>=` with the bound of a time range.
pub open spec fn reads_sql(
    holds: spec_fn(Seq<char>, BindModel, RowModel) -> bool,
    reals: Reals,
) -> bool {
    &&& forall|field: Seq<char>, op: CompareOp, bind: BindModel, row: RowModel|
        expressible(field) ==> (#[trigger] holds(comparison(field, op), bind, row)
            <==> compares(reals, op, row_cell(row, field), bind, textual(field)))
    &&& forall|field: Seq<char>, pattern: Seq<char>, row: RowModel|
        expressible(field) ==> (#[trigger] holds(
            matching(field),
            BindModel::Text(pattern),
            row,
        ) <==> (cell_text(reals, row_cell(row, field)) matches Some(t) && like::matches(
            pattern,
            t,
        )))
    &&& forall|bound: Seq<char>, row: RowModel| #[trigger]
        holds("timestamp >= ?"@, BindModel::Text(bound), row) <==> not_before(row.timestamp, bound)
}

/// The condition of a clause holds of the row of an entry exactly where the clause asks for the
/// entry, whose members read back. In particular `CONTAINS` asks for the texts that contain its
/// value, and `!=` also for the entries without the field.
pub proof fn conditions_say_what_is_asked(
    holds: spec_fn(Seq<char>, BindModel, RowModel) -> bool,
    reals: Reals,
    clause: ClauseModel,
    entry: EntryModel,
    now: Instant,
)
    requires
        reads_sql(holds, reals),
        executor::condition(clause, now) is Ok,
        json::members_read(json::members_printed(entry.fields)) == Some(entry.fields),
    ensures
        ({
            let (part, bind) = executor::condition(clause, now)->Ok_0;
            holds(part, bind, indexer::row_of(entry).row) <==> asks(reals, clause, entry, now)
        }),
{
    let (part, bind) = executor::condition(clause, now)->Ok_0;
    let row = indexer::row_of(entry).row;
    match clause {
        ClauseModel::Compare { field, op, value } => {
            assert(part == comparison(field, op));
            assert(row_cell(row, field) == entry_cell(entry, field));
        },
        ClauseModel::Contains { field, value } => {
            assert(part == matching(field));
            assert(row_cell(row, field) == entry_cell(entry, field));
            if let Some(t) = cell_text(reals, entry_cell(entry, field)) {
                like::contains_clause_is_literal(value, t);
            }
        },
        ClauseModel::LastDuration(_) => {},
        ClauseModel::SinceDatetime(_) => {},
    }
}

/// A clause has a condition exactly where its field can stand in one, or its datetime denotes an
/// instant. Where it has none, the fault is that field or that datetime.
pub proof fn clauses_have_conditions(clause: ClauseModel, now: Instant)
    ensures
        executor::condition(clause, now) is Ok <==> match clause {
            ClauseModel::Compare { field, .. } => expressible(field),
            ClauseModel::Contains { field, .. } => expressible(field),
            ClauseModel::LastDuration(_) => true,
            ClauseModel::SinceDatetime(s) => time::since_instant(s) is Some,
        },
        executor::condition(clause, now) matches Err(fault) ==> match clause {
            ClauseModel::Compare { field, .. } => fault == executor::PlanFault::Field(field),
            ClauseModel::Contains { field, .. } => fault == executor::PlanFault::Field(field),
            ClauseModel::LastDuration(_) => false,
            ClauseModel::SinceDatetime(s) => fault == executor::PlanFault::Datetime(s),
        },
{
}

// ---------------------------------------------------------------------------
// Laws: what comparisons ask
// ---------------------------------------------------------------------------

/// Whether an entry has this JSON value as a member of its own with this name.
pub open spec fn has_member(entry: EntryModel, field: Seq<char>, value: Json) -> bool {
    &&& !textual(field)
    &&& !field.contains('.')
    &&& entry.fields.contains_pair(field, value)
}

/// Whether an entry has this text in a field.
pub open spec fn has_text(entry: EntryModel, field: Seq<char>, t: Seq<char>) -> bool {
    ||| field == "timestamp"@ && entry.timestamp == Some(t)
    ||| field == "level"@ && entry.level == Some(t)
    ||| field == "message"@ && entry.message == Some(t)
    ||| field == "tag"@ && entry.tag == Some(t)
    ||| has_member(entry, field, Json::Text(t))
}

/// Whether an entry has nothing in a field, or `null`.
pub open spec fn has_nothing(entry: EntryModel, field: Seq<char>) -> bool {
    ||| field == "timestamp"@ && entry.timestamp is None
    ||| field == "level"@ && entry.level is None
    ||| field == "message"@ && entry.message is None
    ||| field == "tag"@ && entry.tag is None
    ||| !textual(field) && !field.contains('.') && !entry.fields.dom().contains(field)
    ||| has_member(entry, field, Json::Null)
}

proof fn first_point_of_a_name(name: Seq<char>)
    requires
        !name.contains('.'),
    ensures
        first_point(name) == name.len(),
    decreases name.len(),
{
    if name.len() > 0 {
        assert(name[0] != '.');
        assert forall|i: int| 0 <= i < name.skip(1).len() implies name.skip(1)[i] != '.' by {
            assert(name.skip(1)[i] == name[i + 1]);
        }
        first_point_of_a_name(name.skip(1));
    }
}

proof fn member_of_a_name(members: Map<Seq<char>, Json>, name: Seq<char>)
    requires
        !name.contains('.'),
    ensures
        member_at(members, name) == (if members.dom().contains(name) {
            Some(members[name])
        } else {
            None
        }),
{
    first_point_of_a_name(name);
    assert(name.take(name.len() as int) == name);
}

/// Names with a point between them reach into an object: what stands there is what stands under the
/// second in the object under the first.
pub proof fn paths_reach_into_objects(
    members: Map<Seq<char>, Json>,
    outer: Seq<char>,
    inner: Map<Seq<char>, Json>,
    path: Seq<char>,
)
    requires
        !outer.contains('.'),
        members.contains_pair(outer, Json::Object(inner)),
    ensures
        member_at(members, outer + seq!['.'] + path) == member_at(inner, path),
{
    let whole = outer + seq!['.'] + path;
    first_point_before(outer, seq!['.'] + path);
    assert(whole == outer + (seq!['.'] + path));
    assert(whole.take(outer.len() as int) == outer);
    assert(whole.skip(outer.len() as int + 1) == path);
}

proof fn first_point_before(name: Seq<char>, rest: Seq<char>)
    requires
        !name.contains('.'),
        rest.len() > 0,
        rest[0] == '.',
    ensures
        first_point(name + rest) == name.len(),
    decreases name.len(),
{
    if name.len() > 0 {
        let tail = name.skip(1);
        assert(name[0] != '.');
        assert forall|i: int| 0 <= i < tail.len() implies tail[i] != '.' by {
            assert(tail[i] == name[i + 1]);
        }
        assert((name + rest).skip(1) == tail + rest);
        first_point_before(tail, rest);
    }
}

/// A text compared with a text: `=` asks for the very same text, character for character, `!=` for
/// any other, and `>` and `<` for one that sorts behind or before it.
pub proof fn texts_are_compared_as_they_are(
    reals: Reals,
    field: Seq<char>,
    t: Seq<char>,
    entry: EntryModel,
    u: Seq<char>,
    now: Instant,
)
    requires
        has_text(entry, field, u),
    ensures
        ({
            let value = ValueModel::Text(t);
            let clause = |op: CompareOp| ClauseModel::Compare { field, op, value };
            &&& asks(reals, clause(CompareOp::Eq), entry, now) <==> u == t
            &&& asks(reals, clause(CompareOp::NotEq), entry, now) <==> u != t
            &&& asks(reals, clause(CompareOp::Gt), entry, now) <==> text::sorts_before(t, u)
            &&& asks(reals, clause(CompareOp::Lt), entry, now) <==> text::sorts_before(u, t)
        }),
{
    parser::known_keys_differ();
    if !textual(field) {
        member_of_a_name(entry.fields, field);
    }
    assert(entry_cell(entry, field) == Cell::Text(u));
    text::sorting_decides(u, t);
    text::sorting_is_one_way(u, t);
    text::sorting_is_one_way(t, u);
}

/// An integer compared with an integer is compared by its number.
pub proof fn integers_are_compared_by_number(
    reals: Reals,
    field: Seq<char>,
    m: int,
    entry: EntryModel,
    n: int,
    now: Instant,
)
    requires
        i64::MIN <= m <= i64::MAX,
        i64::MIN <= n <= i64::MAX,
        has_member(entry, field, Json::Number(language::integer_numeral(n))),
    ensures
        ({
            let value = ValueModel::Integer(m);
            let clause = |op: CompareOp| ClauseModel::Compare { field, op, value };
            &&& asks(reals, clause(CompareOp::Eq), entry, now) <==> n == m
            &&& asks(reals, clause(CompareOp::NotEq), entry, now) <==> n != m
            &&& asks(reals, clause(CompareOp::Gt), entry, now) <==> n > m
            &&& asks(reals, clause(CompareOp::Lt), entry, now) <==> n < m
        }),
{
    member_of_a_name(entry.fields, field);
    language::integer_numeral_denotes(n);
    language::integer_numeral_denotes(m);
    reveal_strlit("-");
    assert("-"@ == seq!['-']);
    assert(integer_text(m) == language::integer_numeral(m));
    assert(entry_cell(entry, field) == Cell::Number(language::integer_numeral(n)));
    assert(whole(language::integer_numeral(n)) && whole(integer_text(m)));
}

/// A truth value equals itself and differs from the other.
pub proof fn truth_values_are_told_apart(
    reals: Reals,
    field: Seq<char>,
    asked: bool,
    entry: EntryModel,
    had: bool,
    now: Instant,
)
    requires
        has_member(entry, field, Json::Bool(had)),
    ensures
        ({
            let value = ValueModel::Bool(asked);
            let clause = |op: CompareOp| ClauseModel::Compare { field, op, value };
            &&& asks(reals, clause(CompareOp::Eq), entry, now) <==> had == asked
            &&& asks(reals, clause(CompareOp::NotEq), entry, now) <==> had != asked
        }),
{
    let n: int = if had { 1 } else { 0 };
    let m: int = if asked { 1 } else { 0 };
    member_of_a_name(entry.fields, field);
    language::integer_numeral_denotes(n);
    language::integer_numeral_denotes(m);
    assert(integer_text(n) == language::integer_numeral(n));
    assert(integer_text(m) == language::integer_numeral(m));
    assert(entry_cell(entry, field) == Cell::Number(integer_text(n)));
    assert(whole(integer_text(n)) && whole(integer_text(m)));
}

/// A field that an entry does not have differs from every value, and meets no other condition.
pub proof fn absent_fields_differ(
    reals: Reals,
    field: Seq<char>,
    value: ValueModel,
    sought: Seq<char>,
    entry: EntryModel,
    now: Instant,
)
    requires
        has_nothing(entry, field),
    ensures
        ({
            let clause = |op: CompareOp| ClauseModel::Compare { field, op, value };
            &&& asks(reals, clause(CompareOp::NotEq), entry, now)
            &&& !asks(reals, clause(CompareOp::Eq), entry, now)
            &&& !asks(reals, clause(CompareOp::Gt), entry, now)
            &&& !asks(reals, clause(CompareOp::Lt), entry, now)
            &&& !asks(reals, ClauseModel::Contains { field, value: sought }, entry, now)
        }),
{
    parser::known_keys_differ();
    if !textual(field) {
        member_of_a_name(entry.fields, field);
    }
    assert(entry_cell(entry, field) == Cell::Null);
}

/// `CONTAINS` asks for the texts in which the value stands somewhere, without regard to the case of
/// ASCII letters.
pub proof fn contained_texts_are_found(
    reals: Reals,
    field: Seq<char>,
    sought: Seq<char>,
    entry: EntryModel,
    u: Seq<char>,
    before: Seq<char>,
    found: Seq<char>,
    after: Seq<char>,
    now: Instant,
)
    requires
        has_text(entry, field, u),
    ensures
        u == before + found + after && text::folded(found) == text::folded(sought) ==> asks(
            reals,
            ClauseModel::Contains { field, value: sought },
            entry,
            now,
        ),
        asks(reals, ClauseModel::Contains { field, value: sought }, entry, now) ==> exists|i: int|
            #![trigger u.subrange(i, i + sought.len())]
            0 <= i <= u.len() - sought.len() && text::folded(u.subrange(i, i + sought.len()))
                == text::folded(sought),
{
    parser::known_keys_differ();
    if !textual(field) {
        member_of_a_name(entry.fields, field);
    }
    assert(entry_cell(entry, field) == Cell::Text(u));
    if u == before + found + after && text::folded(found) == text::folded(sought) {
        assert(text::folded(found).len() == found.len() && text::folded(sought).len()
            == sought.len());
        let i = before.len() as int;
        assert(u.subrange(i, i + sought.len()) == found);
        assert(like::stands_at(sought, u, i));
    }
    if like::contains(u, sought) {
        let i = choose|i: int| #[trigger] like::stands_at(sought, u, i);
        assert(text::folded(u.subrange(i, i + sought.len())) == text::folded(sought));
    }
}

/// `last` asks for the entries that are not earlier than so long before now, where the timestamp of
/// the entry is in the form of the bounds, and years have four digits.
pub proof fn windows_reach_back(
    reals: Reals,
    d: Duration,
    entry: EntryModel,
    at: Instant,
    now: Instant,
)
    requires
        entry.timestamp == Some(time::bound_text(at)),
        time::representable(at),
        time::four_digit_year(at),
        time::four_digit_year(time::cutoff(now, query::duration_seconds(d))),
        time::sorts_as(
            time::bound_text(time::cutoff(now, query::duration_seconds(d))),
            time::cutoff(now, query::duration_seconds(d)),
        ),
    ensures
        asks(reals, ClauseModel::LastDuration(d), entry, now) <==> !time::precedes(
            at,
            time::cutoff(now, query::duration_seconds(d)),
        ),
{
    let cut = time::cutoff(now, query::duration_seconds(d));
    let bound = time::bound_text(cut);
    let stamp = time::bound_text(at);
    text::sorting_is_one_way(bound, stamp);
    text::sorting_is_one_way(stamp, stamp);
    if !time::precedes(at, cut) && !time::precedes(cut, at) {
        assert(at == cut);
    }
}

proof fn each_clause_has_its_condition(clauses: Seq<ClauseModel>, now: Instant, k: int)
    requires
        executor::conditions(clauses, now) is Ok,
        0 <= k < clauses.len(),
    ensures
        ({
            let (parts, binds) = executor::conditions(clauses, now)->Ok_0;
            &&& parts.len() == clauses.len()
            &&& binds.len() == clauses.len()
            &&& executor::condition(clauses[k], now) == Ok::<_, executor::PlanFault>(
                (parts[k], binds[k]),
            )
        }),
    decreases clauses.len(),
{
    let front = clauses.drop_last();
    if front.len() > 0 {
        if k < front.len() {
            each_clause_has_its_condition(front, now, k);
        } else {
            each_clause_has_its_condition(front, now, 0);
        }
    } else {
        assert(executor::conditions(front, now) == Ok::<_, executor::PlanFault>(
            (Seq::<Seq<char>>::empty(), Seq::<BindModel>::empty()),
        ));
    }
}

/// A query is answered with exactly the entries that are what all its clauses ask for, each once,
/// newest first, from a table that holds the rows of entries whose members read back.
pub proof fn answers_are_what_was_asked(
    holds: spec_fn(Seq<char>, BindModel, RowModel) -> bool,
    reals: Reals,
    entries: Seq<EntryModel>,
    clauses: Seq<ClauseModel>,
    now: Instant,
    ids: Seq<int>,
)
    requires
        reads_sql(holds, reals),
        table::read_back(entries),
        table::table_selects(holds, table::rows_of(entries), clauses, None, now, ids),
    ensures
        table::newest_first(table::rows_of(entries), ids),
        ids.no_duplicates(),
        forall|k: int| #[trigger]
            ids.contains(k) <==> 0 <= k < entries.len() && meets_all(
                reals,
                clauses,
                entries[k],
                now,
            ),
        executor::entries_of(table::rows_at(table::rows_of(entries), ids)) == Ok::<
            _,
            executor::RowFault,
        >(ids.map_values(|id: int| entries[id])),
{
    let rows = table::rows_of(entries);
    let (parts, binds) = executor::conditions(clauses, now)->Ok_0;
    if clauses.len() > 0 {
        each_clause_has_its_condition(clauses, now, 0);
    }
    assert forall|i: int| 0 <= i < entries.len() implies (#[trigger] table::meets(
        holds,
        parts,
        binds,
        rows[i].row,
    ) <==> meets_all(reals, clauses, entries[i], now)) by {
        assert forall|k: int| 0 <= k < clauses.len() implies (holds(
            parts[k],
            binds[k],
            rows[i].row,
        ) <==> asks(reals, #[trigger] clauses[k], entries[i], now)) by {
            each_clause_has_its_condition(clauses, now, k);
            conditions_say_what_is_asked(holds, reals, clauses[k], entries[i], now);
        }
        if table::meets(holds, parts, binds, rows[i].row) {
            assert forall|k: int| 0 <= k < clauses.len() implies asks(
                reals,
                #[trigger] clauses[k],
                entries[i],
                now,
            ) by {
                assert(holds(parts[k], binds[k], rows[i].row));
            }
        }
        if meets_all(reals, clauses, entries[i], now) {
            assert forall|k: int| 0 <= k < parts.len() implies holds(
                #[trigger] parts[k],
                binds[k],
                rows[i].row,
            ) by {
                assert(asks(reals, clauses[k], entries[i], now));
            }
        }
    }
    table::selected_entries_are_given_back(holds, entries, clauses, now, ids);
}

} // verus!
