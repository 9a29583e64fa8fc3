//! From text to a query, by recursive descent over the tokens.
//!
//! Every place where the text stops being a query has its own kind of error; an error points at
//! the token that was not expected, or at the end of the text where a token is missing.
use crate::error::{QueryErrorKind, QueryParseError};
use crate::json;
use crate::lexer;
use crate::lexer::{tokenize, Fault, KindModel, Token, TokenKind, TokenModel};
use crate::query;
use crate::query::{
    is_field_name, Clause, ClauseModel, Duration, DurationUnit, Fraction, QueryNode, QueryValue,
    ValueModel,
};
use crate::text;
use crate::text::{bytes_before, chars_of, fold, is_numeral, same_text, text_between, whole_number};
use vstd::prelude::*;

verus! {

// ---------------------------------------------------------------------------
// The language
// ---------------------------------------------------------------------------

/// Where token `i` begins, or the end of the text where there is no such token.
pub open spec fn place(toks: Seq<TokenModel>, i: int, end: int) -> int {
    if i < toks.len() {
        toks[i].at
    } else {
        end
    }
}

/// Whether token `i` is this keyword, in any case.
pub open spec fn keyword(toks: Seq<TokenModel>, i: int, word: Seq<char>) -> bool {
    &&& 0 <= i < toks.len()
    &&& toks[i].kind matches KindModel::Word(w) && text::folded(w) == word
}

/// The words that join clauses and cannot be values.
pub open spec fn conjunction(toks: Seq<TokenModel>, i: int) -> bool {
    keyword(toks, i, "and"@) || keyword(toks, i, "or"@)
}

/// The number that an integer numeral denotes.
pub open spec fn integer_value(t: Seq<char>) -> int {
    if t.len() > 0 && t[0] == '-' {
        -(text::decimal_value(query::unsigned(t)) as int)
    } else {
        text::decimal_value(t) as int
    }
}

/// `duration := number ("m" | "h" | "d")`
pub open spec fn duration_at(toks: Seq<TokenModel>, i: int, end: int) -> Result<
    (Duration, int),
    Fault,
> {
    if i < toks.len() && toks[i].kind is Number && text::numeral(toks[i].kind->Number_0) {
        let amount = text::decimal_value(toks[i].kind->Number_0);
        if amount > u64::MAX {
            Err((QueryErrorKind::IntegerOutOfRange, toks[i].at))
        } else {
            match unit_at(toks, i + 1) {
                Some(unit) => Ok((Duration { amount: amount as u64, unit }, i + 2)),
                None => Err((QueryErrorKind::ExpectedDurationUnit, place(toks, i + 1, end))),
            }
        }
    } else {
        Err((QueryErrorKind::ExpectedDuration, place(toks, i, end)))
    }
}

/// The unit that token `i` names.
pub open spec fn unit_at(toks: Seq<TokenModel>, i: int) -> Option<DurationUnit> {
    if i < toks.len() && toks[i].kind is Word {
        let w = toks[i].kind->Word_0;
        if w == "m"@ {
            Some(DurationUnit::Minutes)
        } else if w == "h"@ {
            Some(DurationUnit::Hours)
        } else if w == "d"@ {
            Some(DurationUnit::Days)
        } else {
            None
        }
    } else {
        None
    }
}

/// The datetime of a `since` is any text but a conjunction; what it denotes is settled when the
/// query runs.
pub open spec fn datetime_at(toks: Seq<TokenModel>, i: int) -> Option<Seq<char>> {
    if i < toks.len() && !conjunction(toks, i) {
        match toks[i].kind {
            KindModel::Word(t) => Some(t),
            KindModel::Quoted(t) => Some(t),
            KindModel::Number(t) => Some(t),
            KindModel::Op(_) => None,
        }
    } else {
        None
    }
}

/// `string := '"' .* '"' | bare_word`
pub open spec fn string_at(toks: Seq<TokenModel>, i: int) -> Option<Seq<char>> {
    if i < toks.len() && !conjunction(toks, i) {
        match toks[i].kind {
            KindModel::Word(t) => Some(t),
            KindModel::Quoted(t) => Some(t),
            KindModel::Number(_) => None,
            KindModel::Op(_) => None,
        }
    } else {
        None
    }
}

/// `value := string | number | bool`
pub open spec fn value_at(toks: Seq<TokenModel>, i: int, end: int) -> Result<ValueModel, Fault> {
    if keyword(toks, i, "true"@) {
        Ok(ValueModel::Bool(true))
    } else if keyword(toks, i, "false"@) {
        Ok(ValueModel::Bool(false))
    } else if i < toks.len() && toks[i].kind is Number {
        let t = toks[i].kind->Number_0;
        if query::fraction_numeral(t) {
            Ok(ValueModel::Float(t))
        } else if text::numeral(query::unsigned(t)) && i64::MIN <= integer_value(t)
            <= i64::MAX {
            Ok(ValueModel::Integer(integer_value(t)))
        } else {
            Err((QueryErrorKind::IntegerOutOfRange, toks[i].at))
        }
    } else {
        match string_at(toks, i) {
            Some(t) => Ok(ValueModel::Text(t)),
            None => Err((QueryErrorKind::ExpectedValue, place(toks, i, end))),
        }
    }
}

/// What follows a field name: `OP value` or `CONTAINS string`.
pub open spec fn comparison_at(
    toks: Seq<TokenModel>,
    i: int,
    end: int,
    field: Seq<char>,
) -> Result<(ClauseModel, int), Fault> {
    if i < toks.len() && toks[i].kind is Op {
        match value_at(toks, i + 1, end) {
            Ok(value) => Ok(
                (ClauseModel::Compare { field, op: toks[i].kind->Op_0, value }, i + 2),
            ),
            Err(fault) => Err(fault),
        }
    } else if keyword(toks, i, "contains"@) {
        match string_at(toks, i + 1) {
            Some(value) => Ok((ClauseModel::Contains { field, value }, i + 2)),
            None => Err((QueryErrorKind::ExpectedValue, place(toks, i + 1, end))),
        }
    } else {
        Err((QueryErrorKind::ExpectedOperator, place(toks, i, end)))
    }
}

/// The clause that begins at token `i`, and the token after it.
pub open spec fn clause_at(toks: Seq<TokenModel>, i: int, end: int) -> Result<
    (ClauseModel, int),
    Fault,
> {
    if keyword(toks, i, "last"@) {
        match duration_at(toks, i + 1, end) {
            Ok((d, next)) => Ok((ClauseModel::LastDuration(d), next)),
            Err(fault) => Err(fault),
        }
    } else if keyword(toks, i, "since"@) {
        match datetime_at(toks, i + 1) {
            Some(t) => Ok((ClauseModel::SinceDatetime(t), i + 2)),
            None => Err((QueryErrorKind::ExpectedDatetime, place(toks, i + 1, end))),
        }
    } else if !(0 <= i < toks.len()) || !(toks[i].kind is Word) || conjunction(toks, i)
        || keyword(toks, i, "contains"@) {
        Err((QueryErrorKind::ExpectedField, place(toks, i, end)))
    } else if !query::field_name(toks[i].kind->Word_0) {
        Err((QueryErrorKind::InvalidFieldName, toks[i].at))
    } else {
        comparison_at(toks, i + 1, end, toks[i].kind->Word_0)
    }
}

/// The clauses from token `i` on, where one has just ended: each is joined by `AND`, but a time
/// range may follow without it.
pub open spec fn rest_at(toks: Seq<TokenModel>, i: int, end: int) -> Result<
    Seq<ClauseModel>,
    Fault,
>
    decreases toks.len() - i,
{
    if !(0 <= i < toks.len()) {
        Ok(seq![])
    } else if keyword(toks, i, "or"@) {
        Err((QueryErrorKind::OrNotSupported, toks[i].at))
    } else if keyword(toks, i, "and"@) || keyword(toks, i, "last"@) || keyword(
        toks,
        i,
        "since"@,
    ) {
        let start = if keyword(toks, i, "and"@) {
            i + 1
        } else {
            i
        };
        proof {
            clauses_advance(toks, start, end);
        }
        match clause_at(toks, start, end) {
            Ok((clause, next)) => match rest_at(toks, next, end) {
                Ok(clauses) => Ok(seq![clause] + clauses),
                Err(fault) => Err(fault),
            },
            Err(fault) => Err(fault),
        }
    } else {
        Err((QueryErrorKind::ExpectedAnd, toks[i].at))
    }
}

/// The clauses of a query made of these tokens.
pub open spec fn clauses_of(toks: Seq<TokenModel>, end: int) -> Result<Seq<ClauseModel>, Fault> {
    if toks.len() == 0 {
        Err((QueryErrorKind::Empty, 0))
    } else {
        match clause_at(toks, 0, end) {
            Ok((clause, next)) => match rest_at(toks, next, end) {
                Ok(clauses) => Ok(seq![clause] + clauses),
                Err(fault) => Err(fault),
            },
            Err(fault) => Err(fault),
        }
    }
}

/// The query that a text is.
pub open spec fn parsed(s: Seq<char>) -> Result<Seq<ClauseModel>, Fault> {
    match lexer::tokens_of(s) {
        Ok(toks) => clauses_of(toks, s.len() as int),
        Err(fault) => Err(fault),
    }
}

// ---------------------------------------------------------------------------
// Laws
// ---------------------------------------------------------------------------

/// A clause takes up at least one token and none beyond the last.
pub proof fn clauses_advance(toks: Seq<TokenModel>, i: int, end: int)
    requires
        0 <= i,
    ensures
        clause_at(toks, i, end) matches Ok((_, next)) ==> i < next <= toks.len(),
{
}

/// A clause that names a field names one that a field may have.
proof fn clause_names_are_valid(toks: Seq<TokenModel>, i: int, end: int)
    ensures
        clause_at(toks, i, end) matches Ok((clause, _)) ==> names_are_valid(seq![clause]),
{
}

/// Whether every field that is named has a name that a field may have.
pub open spec fn names_are_valid(clauses: Seq<ClauseModel>) -> bool {
    forall|k: int|
        0 <= k < clauses.len() ==> (query::clause_field(#[trigger] clauses[k]) matches Some(f)
            ==> query::field_name(f))
}

proof fn rest_names_are_valid(toks: Seq<TokenModel>, i: int, end: int)
    ensures
        rest_at(toks, i, end) matches Ok(clauses) ==> names_are_valid(clauses),
    decreases toks.len() - i,
{
    if 0 <= i < toks.len() {
        let start = if keyword(toks, i, "and"@) {
            i + 1
        } else {
            i
        };
        clauses_advance(toks, start, end);
        clause_names_are_valid(toks, start, end);
        if clause_at(toks, start, end) is Ok {
            rest_names_are_valid(toks, clause_at(toks, start, end)->Ok_0.1, end);
        }
    }
}

/// A query has at least one clause, and names no field but by a name that a field may have.
pub proof fn queries_are_safe(s: Seq<char>)
    ensures
        parsed(s) matches Ok(clauses) ==> clauses.len() > 0 && names_are_valid(clauses),
{
    if parsed(s) is Ok {
        let toks = lexer::tokens_of(s)->Ok_0;
        let end = s.len() as int;
        clause_names_are_valid(toks, 0, end);
        rest_names_are_valid(toks, clause_at(toks, 0, end)->Ok_0.1, end);
    }
}

/// Whether every token begins before the end of the text.
pub open spec fn within(toks: Seq<TokenModel>, end: int) -> bool {
    &&& 0 <= end
    &&& forall|i: int| 0 <= i < toks.len() ==> 0 <= (#[trigger] toks[i]).at < end
}

proof fn rest_faults_lie_within(toks: Seq<TokenModel>, i: int, end: int)
    requires
        within(toks, end),
    ensures
        rest_at(toks, i, end) matches Err((_, at)) ==> 0 <= at <= end,
    decreases toks.len() - i,
{
    if 0 <= i < toks.len() {
        let start = if keyword(toks, i, "and"@) {
            i + 1
        } else {
            i
        };
        clauses_advance(toks, start, end);
        if clause_at(toks, start, end) is Ok {
            rest_faults_lie_within(toks, clause_at(toks, start, end)->Ok_0.1, end);
        }
    }
}

/// A fault is found at a token of the text or at its end.
pub proof fn faults_lie_within(toks: Seq<TokenModel>, end: int)
    requires
        within(toks, end),
    ensures
        clauses_of(toks, end) matches Err((_, at)) ==> 0 <= at <= end,
{
    if toks.len() > 0 && clause_at(toks, 0, end) is Ok {
        rest_faults_lie_within(toks, clause_at(toks, 0, end)->Ok_0.1, end);
    }
}

/// Every keyword is recognised in any case.
pub proof fn keywords_in_any_case(
    a: Seq<TokenModel>,
    b: Seq<TokenModel>,
    i: int,
    j: int,
    word: Seq<char>,
)
    requires
        0 <= i < a.len(),
        0 <= j < b.len(),
        a[i].kind is Word,
        b[j].kind is Word,
        text::folded(a[i].kind->Word_0) == text::folded(b[j].kind->Word_0),
    ensures
        keyword(a, i, word) == keyword(b, j, word),
{
}

/// Whether two queries differ at most in how their conjunctions are capitalised.
pub open spec fn same_but_for_conjunctions(a: Seq<TokenModel>, b: Seq<TokenModel>) -> bool {
    &&& a.len() == b.len()
    &&& forall|i: int|
        0 <= i < a.len() ==> #[trigger] a[i] == b[i] || (a[i].at == b[i].at && conjunction(a, i)
            && conjunction(b, i) && text::folded(a[i].kind->Word_0) == text::folded(
            b[i].kind->Word_0,
        ))
}

proof fn same_token(a: Seq<TokenModel>, b: Seq<TokenModel>, i: int, end: int)
    requires
        same_but_for_conjunctions(a, b),
        0 <= i,
    ensures
        forall|word: Seq<char>| #[trigger] keyword(a, i, word) == keyword(b, i, word),
        place(a, i, end) == place(b, i, end),
        unit_at(a, i) == unit_at(b, i),
        datetime_at(a, i) == datetime_at(b, i),
        string_at(a, i) == string_at(b, i),
        value_at(a, i, end) == value_at(b, i, end),
{
    reveal_strlit("and");
    reveal_strlit("or");
    reveal_strlit("true");
    reveal_strlit("false");
    reveal_strlit("m");
    reveal_strlit("h");
    reveal_strlit("d");
    if i < a.len() && a[i] != b[i] {
        assert(b[i].kind->Word_0.len() == text::folded(b[i].kind->Word_0).len());
    }
}

proof fn same_clause(a: Seq<TokenModel>, b: Seq<TokenModel>, i: int, end: int)
    requires
        same_but_for_conjunctions(a, b),
        0 <= i,
    ensures
        clause_at(a, i, end) == clause_at(b, i, end),
{
    same_token(a, b, i, end);
    same_token(a, b, i + 1, end);
    same_token(a, b, i + 2, end);
}

proof fn same_rest(a: Seq<TokenModel>, b: Seq<TokenModel>, i: int, end: int)
    requires
        same_but_for_conjunctions(a, b),
        0 <= i,
    ensures
        rest_at(a, i, end) == rest_at(b, i, end),
    decreases a.len() - i,
{
    if i < a.len() {
        let start = if keyword(a, i, "and"@) {
            i + 1
        } else {
            i
        };
        clauses_advance(a, start, end);
        same_clause(a, b, start, end);
        if clause_at(a, start, end) is Ok {
            same_rest(a, b, clause_at(a, start, end)->Ok_0.1, end);
        }
    }
}

/// The same query is read whether its conjunctions are in capitals or not.
pub proof fn conjunctions_in_any_case(a: Seq<TokenModel>, b: Seq<TokenModel>, end: int)
    requires
        same_but_for_conjunctions(a, b),
    ensures
        clauses_of(a, end) == clauses_of(b, end),
{
    same_clause(a, b, 0, end);
    clauses_advance(a, 0, end);
    if clause_at(a, 0, end) is Ok {
        same_rest(a, b, clause_at(a, 0, end)->Ok_0.1, end);
    }
}

// ---------------------------------------------------------------------------
// The parser
// ---------------------------------------------------------------------------

/// Where token `i` begins, or the end of the text where there is no such token.
fn token_place(tokens: &Vec<Token>, i: usize, end: usize) -> (r: usize)
    ensures
        r == place(lexer::token_models(tokens@), i as int, end as int),
{
    if i < tokens.len() {
        tokens[i].at
    } else {
        end
    }
}

/// Whether token `i` is this keyword, in any case.
fn is_keyword(tokens: &Vec<Token>, i: usize, word: &str) -> (r: bool)
    ensures
        r == keyword(lexer::token_models(tokens@), i as int, word@),
{
    if i >= tokens.len() {
        return false;
    }
    match &tokens[i].kind {
        TokenKind::Word(w) => same_text(fold(w.as_str()).as_str(), word),
        _ => false,
    }
}

/// Whether token `i` joins clauses.
fn is_conjunction(tokens: &Vec<Token>, i: usize) -> (r: bool)
    ensures
        r == conjunction(lexer::token_models(tokens@), i as int),
{
    is_keyword(tokens, i, "and") || is_keyword(tokens, i, "or")
}

/// The integer that a numeral denotes, where it fits 64 bits.
fn integer(t: &str) -> (r: Option<i64>)
    ensures
        match r {
            Some(n) => text::numeral(query::unsigned(t@)) && n == integer_value(t@),
            None => !(text::numeral(query::unsigned(t@)) && i64::MIN <= integer_value(t@)
                <= i64::MAX),
        },
{
    let chars = chars_of(t);
    let negative = chars.len() > 0 && chars[0] == '-';
    if negative {
        let digits = text_between(&chars, 1, chars.len());
        match whole_number(digits.as_str()) {
            Some(n) => if n <= i64::MAX as u64 {
                Some(-(n as i64))
            } else if n == 9_223_372_036_854_775_808 {
                Some(i64::MIN)
            } else {
                None
            },
            None => None,
        }
    } else {
        match whole_number(t) {
            Some(n) => if n <= i64::MAX as u64 {
                Some(n as i64)
            } else {
                None
            },
            None => None,
        }
    }
}

/// The unit that token `i` names.
fn unit(tokens: &Vec<Token>, i: usize) -> (r: Option<DurationUnit>)
    ensures
        r == unit_at(lexer::token_models(tokens@), i as int),
{
    if i >= tokens.len() {
        return None;
    }
    match &tokens[i].kind {
        TokenKind::Word(w) => if same_text(w.as_str(), "m") {
            Some(DurationUnit::Minutes)
        } else if same_text(w.as_str(), "h") {
            Some(DurationUnit::Hours)
        } else if same_text(w.as_str(), "d") {
            Some(DurationUnit::Days)
        } else {
            None
        },
        _ => None,
    }
}

/// A duration that begins at token `i`, and the token after it.
fn duration(tokens: &Vec<Token>, i: usize, end: usize) -> (r: Result<
    (Duration, usize),
    (QueryErrorKind, usize),
>)
    ensures
        match r {
            Ok((d, next)) => duration_at(lexer::token_models(tokens@), i as int, end as int)
                == Ok::<_, Fault>((d, next as int)),
            Err((kind, at)) => duration_at(lexer::token_models(tokens@), i as int, end as int)
                == Err::<(Duration, int), _>((kind, at as int)),
        },
{
    let count = tokens.len();
    if i < count {
        if let TokenKind::Number(t) = &tokens[i].kind {
            match whole_number(t.as_str()) {
                Some(amount) => {
                    return match unit(tokens, i + 1) {
                        Some(unit) => Ok((Duration { amount, unit }, i + 2)),
                        None => Err(
                            (QueryErrorKind::ExpectedDurationUnit, token_place(tokens, i + 1, end)),
                        ),
                    };
                },
                None => if is_numeral(t.as_str()) {
                    return Err((QueryErrorKind::IntegerOutOfRange, tokens[i].at));
                },
            }
        }
    }
    Err((QueryErrorKind::ExpectedDuration, token_place(tokens, i, end)))
}

/// The text of a bare word or a quoted string at token `i`.
fn string(tokens: &Vec<Token>, i: usize) -> (r: Option<String>)
    ensures
        json::text_view(r) == string_at(lexer::token_models(tokens@), i as int),
{
    if i >= tokens.len() || is_conjunction(tokens, i) {
        return None;
    }
    match &tokens[i].kind {
        TokenKind::Word(t) => Some(t.clone()),
        TokenKind::Quoted(t) => Some(t.clone()),
        _ => None,
    }
}

/// The datetime of a `since`, at token `i`.
fn datetime(tokens: &Vec<Token>, i: usize) -> (r: Option<String>)
    ensures
        json::text_view(r) == datetime_at(lexer::token_models(tokens@), i as int),
{
    if i >= tokens.len() || is_conjunction(tokens, i) {
        return None;
    }
    match &tokens[i].kind {
        TokenKind::Word(t) => Some(t.clone()),
        TokenKind::Quoted(t) => Some(t.clone()),
        TokenKind::Number(t) => Some(t.clone()),
        TokenKind::Op(_) => None,
    }
}

/// The value at token `i`.
fn value(tokens: &Vec<Token>, i: usize, end: usize) -> (r: Result<
    QueryValue,
    (QueryErrorKind, usize),
>)
    ensures
        match r {
            Ok(v) => value_at(lexer::token_models(tokens@), i as int, end as int) == Ok::<_, Fault>(
                v@,
            ),
            Err((kind, at)) => value_at(lexer::token_models(tokens@), i as int, end as int)
                == Err::<ValueModel, _>((kind, at as int)),
        },
{
    if is_keyword(tokens, i, "true") {
        return Ok(QueryValue::Bool(true));
    }
    if is_keyword(tokens, i, "false") {
        return Ok(QueryValue::Bool(false));
    }
    if i < tokens.len() {
        if let TokenKind::Number(t) = &tokens[i].kind {
            if let Some(f) = Fraction::new(t.as_str()) {
                return Ok(QueryValue::Float(f));
            }
            return match integer(t.as_str()) {
                Some(n) => Ok(QueryValue::Integer(n)),
                None => Err((QueryErrorKind::IntegerOutOfRange, tokens[i].at)),
            };
        }
    }
    match string(tokens, i) {
        Some(t) => Ok(QueryValue::String(t)),
        None => Err((QueryErrorKind::ExpectedValue, token_place(tokens, i, end))),
    }
}

/// What follows a field name at token `i`, and the token after it.
fn comparison(tokens: &Vec<Token>, i: usize, end: usize, field: &str) -> (r: Result<
    (Clause, usize),
    (QueryErrorKind, usize),
>)
    requires
        i <= tokens@.len(),
    ensures
        match r {
            Ok((c, next)) => comparison_at(
                lexer::token_models(tokens@),
                i as int,
                end as int,
                field@,
            ) == Ok::<_, Fault>((c@, next as int)),
            Err((kind, at)) => comparison_at(
                lexer::token_models(tokens@),
                i as int,
                end as int,
                field@,
            ) == Err::<(ClauseModel, int), _>((kind, at as int)),
        },
{
    let count = tokens.len();
    if i < count {
        if let TokenKind::Op(op) = &tokens[i].kind {
            return match value(tokens, i + 1, end) {
                Ok(value) => Ok(
                    (Clause::Compare { field: field.to_owned(), op: *op, value }, i + 2),
                ),
                Err(fault) => Err(fault),
            };
        }
        if is_keyword(tokens, i, "contains") {
            return match string(tokens, i + 1) {
                Some(value) => Ok((Clause::Contains { field: field.to_owned(), value }, i + 2)),
                None => Err((QueryErrorKind::ExpectedValue, token_place(tokens, i + 1, end))),
            };
        }
    }
    Err((QueryErrorKind::ExpectedOperator, token_place(tokens, i, end)))
}

/// The clause that begins at token `i`, and the token after it.
fn clause(tokens: &Vec<Token>, i: usize, end: usize) -> (r: Result<
    (Clause, usize),
    (QueryErrorKind, usize),
>)
    requires
        i <= tokens@.len(),
    ensures
        match r {
            Ok((c, next)) => clause_at(lexer::token_models(tokens@), i as int, end as int)
                == Ok::<_, Fault>((c@, next as int)) && i < next <= tokens@.len(),
            Err((kind, at)) => clause_at(lexer::token_models(tokens@), i as int, end as int)
                == Err::<(ClauseModel, int), _>((kind, at as int)),
        },
{
    let count = tokens.len();
    proof {
        clauses_advance(lexer::token_models(tokens@), i as int, end as int);
    }
    if i >= count {
        return Err((QueryErrorKind::ExpectedField, end));
    }
    if is_keyword(tokens, i, "last") {
        return match duration(tokens, i + 1, end) {
            Ok((d, next)) => Ok((Clause::LastDuration(d), next)),
            Err(fault) => Err(fault),
        };
    }
    if is_keyword(tokens, i, "since") {
        return match datetime(tokens, i + 1) {
            Some(t) => Ok((Clause::SinceDatetime(t), i + 2)),
            None => Err((QueryErrorKind::ExpectedDatetime, token_place(tokens, i + 1, end))),
        };
    }
    if is_conjunction(tokens, i) || is_keyword(tokens, i, "contains") {
        return Err((QueryErrorKind::ExpectedField, tokens[i].at));
    }
    match &tokens[i].kind {
        TokenKind::Word(field) => if is_field_name(field.as_str()) {
            comparison(tokens, i + 1, end, field.as_str())
        } else {
            Err((QueryErrorKind::InvalidFieldName, tokens[i].at))
        },
        _ => Err((QueryErrorKind::ExpectedField, tokens[i].at)),
    }
}

/// The clauses of a query made of these tokens.
fn clauses(tokens: &Vec<Token>, end: usize) -> (r: Result<Vec<Clause>, (QueryErrorKind, usize)>)
    ensures
        match r {
            Ok(list) => clauses_of(lexer::token_models(tokens@), end as int) == Ok::<_, Fault>(
                query::clause_models(list@),
            ),
            Err((kind, at)) => clauses_of(lexer::token_models(tokens@), end as int) == Err::<
                Seq<ClauseModel>,
                _,
            >((kind, at as int)),
        },
{
    let ghost toks = lexer::token_models(tokens@);
    if tokens.len() == 0 {
        return Err((QueryErrorKind::Empty, 0));
    }
    let mut list: Vec<Clause> = Vec::new();
    let mut i: usize = 0;
    match clause(tokens, 0, end) {
        Ok((first, next)) => {
            list.push(first);
            i = next;
        },
        Err(fault) => {
            return Err(fault);
        },
    }
    assert(query::clause_models(list@) == seq![list@[0]@]);
    while i < tokens.len()
        invariant
            i <= tokens@.len(),
            toks == lexer::token_models(tokens@),
            match rest_at(toks, i as int, end as int) {
                Ok(rest) => clauses_of(toks, end as int) == Ok::<_, Fault>(
                    query::clause_models(list@) + rest,
                ),
                Err(fault) => clauses_of(toks, end as int) == Err::<Seq<ClauseModel>, _>(fault),
            },
        decreases tokens@.len() - i,
    {
        if is_keyword(tokens, i, "or") {
            return Err((QueryErrorKind::OrNotSupported, tokens[i].at));
        }
        let start: usize = if is_keyword(tokens, i, "and") {
            i + 1
        } else if is_keyword(tokens, i, "last") || is_keyword(tokens, i, "since") {
            i
        } else {
            return Err((QueryErrorKind::ExpectedAnd, tokens[i].at));
        };
        match clause(tokens, start, end) {
            Err(fault) => {
                return Err(fault);
            },
            Ok((next_clause, next)) => {
                let ghost before = list@;
                let ghost model = next_clause@;
                list.push(next_clause);
                proof {
                    if rest_at(toks, next as int, end as int) is Ok {
                        let rest = rest_at(toks, next as int, end as int)->Ok_0;
                        assert(query::clause_models(before) + (seq![model] + rest)
                            == query::clause_models(list@) + rest);
                    }
                }
                i = next;
            },
        }
    }
    Ok(list)
}

/// The query that a text is, or what is wrong with it and the byte where that is.
pub fn parse(input: &str) -> (r: Result<QueryNode, QueryParseError>)
    ensures
        match r {
            Ok(q) => parsed(input@) == Ok::<_, Fault>(q@),
            Err(e) => parsed(input@) matches Err((kind, at)) && 0 <= at <= input@.len() && e.kind
                == kind && e.position == text::byte_offset(input@, at),
        },
{
    let chars = chars_of(input);
    let found = match tokenize(&chars) {
        Ok(tokens) => {
            proof {
                faults_lie_within(lexer::token_models(tokens@), chars@.len() as int);
            }
            clauses(&tokens, chars.len())
        },
        Err(fault) => Err(fault),
    };
    match found {
        Ok(list) => Ok(QueryNode::And(list)),
        Err((kind, at)) => Err(QueryParseError { position: bytes_before(input, at), kind }),
    }
}

} // verus!
