//! What queries say, by their texts.
//!
//! Nothing here runs. These are the laws of [`query_parser::parsed`] that a user of the language
//! relies on: which clause each form of text is, and that clauses joined by `AND` are all asked
//! for, in their order.
use crate::error::QueryErrorKind;
use crate::lexer;
use crate::lexer::{Fault, KindModel, TokenModel};
use crate::query;
use crate::query::{ClauseModel, CompareOp, Duration, DurationUnit, ValueModel};
use crate::query_parser;
use crate::text;
use vstd::prelude::*;

verus! {

// ---------------------------------------------------------------------------
// Tokens of texts after each other
// ---------------------------------------------------------------------------

/// Tokens so much further on.
pub open spec fn shifted(toks: Seq<TokenModel>, by: int) -> Seq<TokenModel> {
    toks.map_values(|t: TokenModel| TokenModel { kind: t.kind, at: t.at + by })
}

/// Whether no token goes on into a text that follows it.
pub open spec fn ends_tokens(rest: Seq<char>) -> bool {
    rest.len() == 0 || !lexer::word_char(rest[0])
}

proof fn word_end_shift(p: Seq<char>, w: Seq<char>, i: int)
    requires
        0 <= i <= w.len(),
    ensures
        lexer::word_end(p + w, p.len() + i) == p.len() + lexer::word_end(w, i),
        i <= lexer::word_end(w, i) <= w.len(),
    decreases w.len() - i,
{
    if i < w.len() && lexer::word_char(w[i]) {
        word_end_shift(p, w, i + 1);
    }
}

proof fn number_end_shift(p: Seq<char>, w: Seq<char>, i: int, pointed: bool)
    requires
        0 <= i <= w.len(),
    ensures
        lexer::number_end(p + w, p.len() + i, pointed).0 == p.len() + lexer::number_end(
            w,
            i,
            pointed,
        ).0,
        lexer::number_end(p + w, p.len() + i, pointed).1 == lexer::number_end(w, i, pointed).1,
        i <= lexer::number_end(w, i, pointed).0 <= w.len(),
    decreases w.len() - i,
{
    word_end_shift(p, w, i);
    if i < w.len() {
        if text::digit(w[i]) {
            number_end_shift(p, w, i + 1, pointed);
        } else if w[i] == '.' && !pointed {
            number_end_shift(p, w, i + 1, true);
        }
    }
}

proof fn quote_end_shift(p: Seq<char>, w: Seq<char>, i: int)
    requires
        0 <= i <= w.len(),
    ensures
        lexer::quote_end(p + w, p.len() + i) == p.len() + lexer::quote_end(w, i),
        i <= lexer::quote_end(w, i) <= w.len(),
    decreases w.len() - i,
{
    if i < w.len() && w[i] != '"' {
        quote_end_shift(p, w, i + 1);
    }
}

proof fn token_shift(p: Seq<char>, w: Seq<char>, i: int)
    requires
        0 <= i < w.len(),
    ensures
        match lexer::token_at(w, i) {
            Ok((kind, end)) => lexer::token_at(p + w, p.len() + i) == Ok::<_, QueryErrorKind>(
                (kind, p.len() + end),
            ),
            Err(kind) => lexer::token_at(p + w, p.len() + i) == Err::<(KindModel, int), _>(kind),
        },
{
    let s = p + w;
    let at = p.len() + i;
    quote_end_shift(p, w, i + 1);
    number_end_shift(p, w, i + 1, false);
    word_end_shift(p, w, i);
    assert(s[at] == w[i]);
    if i + 1 < w.len() {
        assert(s[at + 1] == w[i + 1]);
    }
    let quote = lexer::quote_end(w, i + 1);
    assert(s.subrange(at + 1, p.len() + quote) == w.subrange(i + 1, quote));
    let number = lexer::number_end(w, i + 1, false).0;
    assert(s.subrange(at, p.len() + number) == w.subrange(i, number));
    let word = lexer::word_end(w, i);
    assert(s.subrange(at, p.len() + word) == w.subrange(i, word));
}

/// The tokens of a text do not depend on what stands before it.
proof fn tokens_shift(p: Seq<char>, w: Seq<char>, i: int)
    requires
        0 <= i <= w.len(),
    ensures
        match lexer::tokens_from(w, i) {
            Ok(toks) => lexer::tokens_from(p + w, p.len() + i) == Ok::<_, Fault>(
                shifted(toks, p.len() as int),
            ),
            Err((kind, at)) => lexer::tokens_from(p + w, p.len() + i) == Err::<
                Seq<TokenModel>,
                _,
            >((kind, at + p.len())),
        },
    decreases w.len() - i,
{
    let s = p + w;
    if i < w.len() {
        assert(s[p.len() + i] == w[i]);
        if text::white_space(w[i]) {
            tokens_shift(p, w, i + 1);
        } else {
            token_shift(p, w, i);
            lexer::tokens_advance(w, i);
            if let Ok((kind, end)) = lexer::token_at(w, i) {
                tokens_shift(p, w, end);
                if let Ok(rest) = lexer::tokens_from(w, end) {
                    let first = TokenModel { kind, at: i };
                    assert(shifted(seq![first] + rest, p.len() as int) == seq![
                        TokenModel { kind, at: p.len() + i },
                    ] + shifted(rest, p.len() as int));
                }
            }
        }
    } else {
        assert(shifted(seq![], p.len() as int) == Seq::<TokenModel>::empty());
    }
}

proof fn word_end_prefix(x: Seq<char>, rest: Seq<char>, i: int)
    requires
        0 <= i <= x.len(),
        ends_tokens(rest),
    ensures
        lexer::word_end(x + rest, i) == lexer::word_end(x, i),
        i <= lexer::word_end(x, i) <= x.len(),
    decreases x.len() - i,
{
    if i < x.len() {
        assert((x + rest)[i] == x[i]);
        if lexer::word_char(x[i]) {
            word_end_prefix(x, rest, i + 1);
        }
    } else if rest.len() > 0 {
        assert((x + rest)[i] == rest[0]);
    }
}

proof fn number_end_prefix(x: Seq<char>, rest: Seq<char>, i: int, pointed: bool)
    requires
        0 <= i <= x.len(),
        ends_tokens(rest),
    ensures
        lexer::number_end(x + rest, i, pointed) == lexer::number_end(x, i, pointed),
        i <= lexer::number_end(x, i, pointed).0 <= x.len(),
    decreases x.len() - i,
{
    word_end_prefix(x, rest, i);
    if i < x.len() {
        assert((x + rest)[i] == x[i]);
        if text::digit(x[i]) {
            number_end_prefix(x, rest, i + 1, pointed);
        } else if x[i] == '.' && !pointed {
            number_end_prefix(x, rest, i + 1, true);
        }
    } else if rest.len() > 0 {
        assert((x + rest)[i] == rest[0]);
    }
}

proof fn quote_end_prefix(x: Seq<char>, rest: Seq<char>, i: int)
    requires
        0 <= i <= x.len(),
        lexer::quote_end(x, i) < x.len(),
    ensures
        lexer::quote_end(x + rest, i) == lexer::quote_end(x, i),
        i <= lexer::quote_end(x, i),
    decreases x.len() - i,
{
    if i < x.len() {
        assert((x + rest)[i] == x[i]);
        if x[i] != '"' {
            quote_end_prefix(x, rest, i + 1);
        }
    }
}

proof fn token_prefix(x: Seq<char>, rest: Seq<char>, i: int)
    requires
        0 <= i < x.len(),
        lexer::token_at(x, i) is Ok,
        ends_tokens(rest),
    ensures
        lexer::token_at(x + rest, i) == lexer::token_at(x, i),
{
    let s = x + rest;
    assert(s[i] == x[i]);
    if i + 1 < x.len() {
        assert(s[i + 1] == x[i + 1]);
    } else if rest.len() > 0 {
        assert(s[i + 1] == rest[0]);
    }
    if x[i] == '"' {
        quote_end_prefix(x, rest, i + 1);
        let end = lexer::quote_end(x, i + 1);
        assert(s.subrange(i + 1, end) == x.subrange(i + 1, end));
    }
    number_end_prefix(x, rest, i + 1, false);
    word_end_prefix(x, rest, i);
    let number = lexer::number_end(x, i + 1, false).0;
    assert(s.subrange(i, number) == x.subrange(i, number));
    let word = lexer::word_end(x, i);
    assert(s.subrange(i, word) == x.subrange(i, word));
}

/// The tokens of a text stay when something follows that no token goes on into.
proof fn tokens_prefix(x: Seq<char>, rest: Seq<char>, i: int)
    requires
        0 <= i <= x.len(),
        lexer::tokens_from(x, i) is Ok,
        ends_tokens(rest),
    ensures
        match lexer::tokens_from(x + rest, x.len() as int) {
            Ok(more) => lexer::tokens_from(x + rest, i) == Ok::<_, Fault>(
                lexer::tokens_from(x, i)->Ok_0 + more,
            ),
            Err(fault) => lexer::tokens_from(x + rest, i) == Err::<Seq<TokenModel>, _>(fault),
        },
    decreases x.len() - i,
{
    let s = x + rest;
    if i < x.len() {
        assert(s[i] == x[i]);
        if text::white_space(x[i]) {
            tokens_prefix(x, rest, i + 1);
        } else {
            token_prefix(x, rest, i);
            lexer::tokens_advance(x, i);
            let (kind, end) = lexer::token_at(x, i)->Ok_0;
            tokens_prefix(x, rest, end);
            if let Ok(more) = lexer::tokens_from(s, x.len() as int) {
                let first = seq![TokenModel { kind, at: i }];
                let others = lexer::tokens_from(x, end)->Ok_0;
                assert(first + (others + more) == first + others + more);
            }
        }
    } else if let Ok(more) = lexer::tokens_from(s, x.len() as int) {
        assert(Seq::<TokenModel>::empty() + more == more);
    }
}

/// The tokens of two texts after each other are those of both, where none goes on from the first
/// into the second.
pub proof fn tokens_add_up(x: Seq<char>, y: Seq<char>)
    requires
        lexer::tokens_of(x) is Ok,
        ends_tokens(y),
    ensures
        match lexer::tokens_of(y) {
            Ok(toks) => lexer::tokens_of(x + y) == Ok::<_, Fault>(
                lexer::tokens_of(x)->Ok_0 + shifted(toks, x.len() as int),
            ),
            Err((kind, at)) => lexer::tokens_of(x + y) == Err::<Seq<TokenModel>, _>(
                (kind, at + x.len()),
            ),
        },
{
    tokens_prefix(x, y, 0);
    tokens_shift(x, y, 0);
}

/// White space in front of a text moves its tokens on and does nothing else.
pub proof fn white_space_in_front(c: char, y: Seq<char>)
    requires
        text::white_space(c),
    ensures
        match lexer::tokens_of(y) {
            Ok(toks) => lexer::tokens_of(seq![c] + y) == Ok::<_, Fault>(shifted(toks, 1)),
            Err((kind, at)) => lexer::tokens_of(seq![c] + y) == Err::<Seq<TokenModel>, _>(
                (kind, at + 1),
            ),
        },
{
    tokens_shift(seq![c], y, 0);
    assert((seq![c] + y)[0] == c);
}

// ---------------------------------------------------------------------------
// Clauses of tokens after each other
// ---------------------------------------------------------------------------

proof fn token_reads_alike(p: Seq<TokenModel>, u: Seq<TokenModel>, d: int, i: int, end: int)
    requires
        0 <= i,
    ensures
        ({
            let v = p + shifted(u, d);
            let j = p.len() + i;
            &&& forall|word: Seq<char>| #[trigger]
                query_parser::keyword(v, j, word) == query_parser::keyword(u, i, word)
            &&& query_parser::place(v, j, end + d) == query_parser::place(u, i, end) + d
            &&& query_parser::unit_at(v, j) == query_parser::unit_at(u, i)
            &&& query_parser::datetime_at(v, j) == query_parser::datetime_at(u, i)
            &&& query_parser::string_at(v, j) == query_parser::string_at(u, i)
            &&& match query_parser::value_at(u, i, end) {
                Ok(value) => query_parser::value_at(v, j, end + d) == Ok::<_, Fault>(value),
                Err((kind, at)) => query_parser::value_at(v, j, end + d) == Err::<ValueModel, _>(
                    (kind, at + d),
                ),
            }
        }),
{
    let v = p + shifted(u, d);
    let j = p.len() + i;
    if i < u.len() {
        assert(v[j] == shifted(u, d)[i]);
    }
}

/// A clause does not depend on the tokens before it.
proof fn clause_shift(p: Seq<TokenModel>, u: Seq<TokenModel>, d: int, i: int, end: int)
    requires
        0 <= i,
    ensures
        match query_parser::clause_at(u, i, end) {
            Ok((clause, next)) => query_parser::clause_at(
                p + shifted(u, d),
                p.len() + i,
                end + d,
            ) == Ok::<_, Fault>((clause, p.len() + next)),
            Err((kind, at)) => query_parser::clause_at(p + shifted(u, d), p.len() + i, end + d)
                == Err::<(ClauseModel, int), _>((kind, at + d)),
        },
{
    let v = p + shifted(u, d);
    token_reads_alike(p, u, d, i, end);
    token_reads_alike(p, u, d, i + 1, end);
    token_reads_alike(p, u, d, i + 2, end);
    if i < u.len() {
        assert(v[p.len() + i] == shifted(u, d)[i]);
    }
    if i + 1 < u.len() {
        assert(v[p.len() + i + 1] == shifted(u, d)[i + 1]);
    }
}

proof fn rest_shift(p: Seq<TokenModel>, u: Seq<TokenModel>, d: int, i: int, end: int)
    requires
        0 <= i,
    ensures
        match query_parser::rest_at(u, i, end) {
            Ok(clauses) => query_parser::rest_at(p + shifted(u, d), p.len() + i, end + d) == Ok::<
                _,
                Fault,
            >(clauses),
            Err((kind, at)) => query_parser::rest_at(p + shifted(u, d), p.len() + i, end + d)
                == Err::<Seq<ClauseModel>, _>((kind, at + d)),
        },
    decreases u.len() - i,
{
    let v = p + shifted(u, d);
    if i < u.len() {
        assert(v[p.len() + i] == shifted(u, d)[i]);
        token_reads_alike(p, u, d, i, end);
        let start = if query_parser::keyword(u, i, "and"@) {
            i + 1
        } else {
            i
        };
        clause_shift(p, u, d, start, end);
        query_parser::clauses_advance(u, start, end);
        if let Ok((_, next)) = query_parser::clause_at(u, start, end) {
            rest_shift(p, u, d, next, end);
        }
    }
}

proof fn token_stays(a: Seq<TokenModel>, rest: Seq<TokenModel>, i: int, end: int, later: int)
    requires
        0 <= i < a.len(),
    ensures
        forall|word: Seq<char>| #[trigger]
            query_parser::keyword(a + rest, i, word) == query_parser::keyword(a, i, word),
        query_parser::unit_at(a + rest, i) == query_parser::unit_at(a, i),
        query_parser::datetime_at(a + rest, i) == query_parser::datetime_at(a, i),
        query_parser::string_at(a + rest, i) == query_parser::string_at(a, i),
        query_parser::value_at(a, i, end) is Ok ==> query_parser::value_at(a + rest, i, later)
            == query_parser::value_at(a, i, end),
{
    assert((a + rest)[i] == a[i]);
}

/// A clause stays when tokens follow it.
proof fn clause_stays(a: Seq<TokenModel>, rest: Seq<TokenModel>, i: int, end: int, later: int)
    requires
        0 <= i,
        query_parser::clause_at(a, i, end) is Ok,
    ensures
        query_parser::clause_at(a + rest, i, later) == query_parser::clause_at(a, i, end),
{
    query_parser::clauses_advance(a, i, end);
    token_stays(a, rest, i, end, later);
    assert((a + rest)[i] == a[i]);
    if i + 1 < a.len() {
        token_stays(a, rest, i + 1, end, later);
        assert((a + rest)[i + 1] == a[i + 1]);
    }
    if i + 2 < a.len() {
        token_stays(a, rest, i + 2, end, later);
        assert((a + rest)[i + 2] == a[i + 2]);
    }
}

proof fn rest_stays(a: Seq<TokenModel>, rest: Seq<TokenModel>, i: int, end: int, later: int)
    requires
        0 <= i <= a.len(),
        query_parser::rest_at(a, i, end) is Ok,
    ensures
        match query_parser::rest_at(a + rest, a.len() as int, later) {
            Ok(more) => query_parser::rest_at(a + rest, i, later) == Ok::<_, Fault>(
                query_parser::rest_at(a, i, end)->Ok_0 + more,
            ),
            Err(fault) => query_parser::rest_at(a + rest, i, later) == Err::<Seq<ClauseModel>, _>(
                fault,
            ),
        },
    decreases a.len() - i,
{
    if i < a.len() {
        token_stays(a, rest, i, end, later);
        assert((a + rest)[i] == a[i]);
        let start = if query_parser::keyword(a, i, "and"@) {
            i + 1
        } else {
            i
        };
        query_parser::clauses_advance(a, start, end);
        clause_stays(a, rest, start, end, later);
        let (clause, next) = query_parser::clause_at(a, start, end)->Ok_0;
        rest_stays(a, rest, next, end, later);
        if let Ok(more) = query_parser::rest_at(a + rest, a.len() as int, later) {
            let others = query_parser::rest_at(a, next, end)->Ok_0;
            assert(seq![clause] + (others + more) == seq![clause] + others + more);
        }
    } else if let Ok(more) = query_parser::rest_at(a + rest, a.len() as int, later) {
        assert(Seq::<ClauseModel>::empty() + more == more);
    }
}

/// What follows an accepted query is read from where that ends.
proof fn clauses_go_on(a: Seq<TokenModel>, rest: Seq<TokenModel>, end: int, later: int)
    requires
        query_parser::clauses_of(a, end) is Ok,
    ensures
        match query_parser::rest_at(a + rest, a.len() as int, later) {
            Ok(more) => query_parser::clauses_of(a + rest, later) == Ok::<_, Fault>(
                query_parser::clauses_of(a, end)->Ok_0 + more,
            ),
            Err(fault) => query_parser::clauses_of(a + rest, later) == Err::<
                Seq<ClauseModel>,
                _,
            >(fault),
        },
{
    query_parser::clauses_advance(a, 0, end);
    clause_stays(a, rest, 0, end, later);
    let (clause, next) = query_parser::clause_at(a, 0, end)->Ok_0;
    rest_stays(a, rest, next, end, later);
    if let Ok(more) = query_parser::rest_at(a + rest, a.len() as int, later) {
        let others = query_parser::rest_at(a, next, end)->Ok_0;
        assert(seq![clause] + (others + more) == seq![clause] + others + more);
    }
}

/// Two queries with an `AND` between them, by their tokens: the clauses are those of the first and
/// then those of the second, and what is wrong with the second is found in its place.
pub proof fn conjoined_tokens_add_up(
    a: Seq<TokenModel>,
    joint: TokenModel,
    b: Seq<TokenModel>,
    d: int,
    end: int,
    later: int,
)
    requires
        query_parser::clauses_of(a, end) is Ok,
        joint.kind matches KindModel::Word(w) && text::folded(w) == "and"@,
        b.len() > 0,
    ensures
        match query_parser::clauses_of(b, later) {
            Ok(clauses) => query_parser::clauses_of(
                a + seq![joint] + shifted(b, d),
                later + d,
            ) == Ok::<_, Fault>(query_parser::clauses_of(a, end)->Ok_0 + clauses),
            Err((kind, at)) => query_parser::clauses_of(
                a + seq![joint] + shifted(b, d),
                later + d,
            ) == Err::<Seq<ClauseModel>, _>((kind, at + d)),
        },
{
    let p = a + seq![joint];
    let v = p + shifted(b, d);
    let rest = seq![joint] + shifted(b, d);
    assert(v == a + rest);
    clauses_go_on(a, rest, end, later + d);
    assert(v[a.len() as int] == joint);
    reveal_strlit("and");
    reveal_strlit("or");
    assert("and"@.len() == 3 && "or"@.len() == 2);
    clause_shift(p, b, d, 0, later);
    query_parser::clauses_advance(b, 0, later);
    if let Ok((_, next)) = query_parser::clause_at(b, 0, later) {
        rest_shift(p, b, d, next, later);
    }
}

/// A query that begins with a time range may follow another without an `AND`, by their tokens.
pub proof fn following_range_adds_up(
    a: Seq<TokenModel>,
    b: Seq<TokenModel>,
    d: int,
    end: int,
    later: int,
)
    requires
        query_parser::clauses_of(a, end) is Ok,
        b.len() > 0,
        b[0].kind matches KindModel::Word(w) && (text::folded(w) == "last"@ || text::folded(w)
            == "since"@),
    ensures
        match query_parser::clauses_of(b, later) {
            Ok(clauses) => query_parser::clauses_of(a + shifted(b, d), later + d) == Ok::<
                _,
                Fault,
            >(query_parser::clauses_of(a, end)->Ok_0 + clauses),
            Err((kind, at)) => query_parser::clauses_of(a + shifted(b, d), later + d) == Err::<
                Seq<ClauseModel>,
                _,
            >((kind, at + d)),
        },
{
    let v = a + shifted(b, d);
    clauses_go_on(a, shifted(b, d), end, later + d);
    assert(v[a.len() as int] == shifted(b, d)[0]);
    reveal_strlit("and");
    reveal_strlit("or");
    reveal_strlit("last");
    reveal_strlit("since");
    assert("and"@.len() == 3 && "or"@.len() == 2 && "last"@.len() == 4 && "since"@.len() == 5);
    clause_shift(a, b, d, 0, later);
    query_parser::clauses_advance(b, 0, later);
    if let Ok((_, next)) = query_parser::clause_at(b, 0, later) {
        rest_shift(a, b, d, next, later);
    }
}

// ---------------------------------------------------------------------------
// Words, quoted texts and numbers
// ---------------------------------------------------------------------------

/// ASCII letters.
pub open spec fn latin(c: char) -> bool {
    'a' <= c <= 'z' || 'A' <= c <= 'Z'
}

/// Characters beyond ASCII that are no white space.
pub open spec fn beyond_ascii(c: char) -> bool {
    c >= '\u{80}' && !text::white_space(c)
}

/// The characters of bare words: letters of any script, digits, `_`, `.`, `-` and `:`.
pub open spec fn bare_char(c: char) -> bool {
    latin(c) || beyond_ascii(c) || '0' <= c <= '9' || c == '_' || c == '.' || c == '-' || c == ':'
}

/// A bare word: such characters, the first of them a letter or `_`.
pub open spec fn bare_word(w: Seq<char>) -> bool {
    &&& w.len() > 0
    &&& latin(w[0]) || w[0] == '_' || beyond_ascii(w[0])
    &&& forall|i: int| 0 <= i < w.len() ==> bare_char(#[trigger] w[i])
}

/// A name for a field that is no keyword: a letter or `_`, and then letters, digits, `_` and `.`.
pub open spec fn field(f: Seq<char>) -> bool {
    &&& bare_word(f)
    &&& forall|i: int|
        0 <= i < f.len() ==> #[trigger] f[i] != '-' && f[i] != ':' && !beyond_ascii(f[i])
    &&& no_keyword(f)
}

/// A word that is none of the keywords with which no comparison begins.
pub open spec fn no_keyword(w: Seq<char>) -> bool {
    &&& text::folded(w) != "and"@
    &&& text::folded(w) != "or"@
    &&& text::folded(w) != "contains"@
    &&& text::folded(w) != "last"@
    &&& text::folded(w) != "since"@
}

/// A bare word that may be a value: neither a conjunction nor a truth value.
pub open spec fn value_word(w: Seq<char>) -> bool {
    &&& bare_word(w)
    &&& text::folded(w) != "and"@
    &&& text::folded(w) != "or"@
    &&& text::folded(w) != "true"@
    &&& text::folded(w) != "false"@
}

/// A text between quotes.
pub open spec fn quoted(q: Seq<char>) -> Seq<char> {
    seq!['"'] + q + seq!['"']
}

/// How a comparison is written.
pub open spec fn sign(op: CompareOp) -> Seq<char> {
    match op {
        CompareOp::Eq => seq!['='],
        CompareOp::NotEq => seq!['!', '='],
        CompareOp::Gt => seq!['>'],
        CompareOp::Lt => seq!['<'],
    }
}

/// A list of one token at the beginning of a text.
pub open spec fn one_token(kind: KindModel) -> Result<Seq<TokenModel>, Fault> {
    Ok(seq![TokenModel { kind, at: 0 }])
}

proof fn word_goes_to_the_end(w: Seq<char>, i: int)
    requires
        0 <= i <= w.len(),
        forall|j: int| i <= j < w.len() ==> lexer::word_char(#[trigger] w[j]),
    ensures
        lexer::word_end(w, i) == w.len(),
    decreases w.len() - i,
{
    if i < w.len() {
        word_goes_to_the_end(w, i + 1);
    }
}

proof fn word_is_one_token(w: Seq<char>)
    requires
        bare_word(w),
    ensures
        lexer::tokens_of(w) == one_token(KindModel::Word(w)),
{
    assert forall|j: int| 0 <= j < w.len() implies lexer::word_char(#[trigger] w[j]) by {
        assert(bare_char(w[j]));
    }
    word_goes_to_the_end(w, 0);
    assert(w.subrange(0, w.len() as int) == w);
    assert(lexer::tokens_from(w, w.len() as int) == Ok::<_, Fault>(Seq::<TokenModel>::empty()));
    assert(seq![TokenModel { kind: KindModel::Word(w), at: 0 }] + Seq::<TokenModel>::empty()
        == seq![TokenModel { kind: KindModel::Word(w), at: 0 }]);
}

proof fn small_letter_is_latin(c: char, l: char)
    requires
        text::lower(c) == l,
        'a' <= l <= 'z',
    ensures
        latin(c),
{
}

proof fn keyword_is_bare(w: Seq<char>, l: Seq<char>)
    requires
        text::folded(w) == l,
        l.len() > 0,
        forall|i: int| 0 <= i < l.len() ==> 'a' <= #[trigger] l[i] <= 'z',
    ensures
        bare_word(w),
{
    assert(w.len() == l.len());
    assert forall|i: int| 0 <= i < w.len() implies latin(#[trigger] w[i]) && bare_char(w[i]) by {
        assert(text::folded(w)[i] == l[i]);
        small_letter_is_latin(w[i], l[i]);
    }
    assert(latin(w[0]));
}

/// The keywords are words of small letters, no two of which are the same.
proof fn keywords_are_words()
    ensures
        forall|i: int| 0 <= i < "and"@.len() ==> 'a' <= #[trigger] "and"@[i] <= 'z',
        forall|i: int| 0 <= i < "or"@.len() ==> 'a' <= #[trigger] "or"@[i] <= 'z',
        forall|i: int| 0 <= i < "last"@.len() ==> 'a' <= #[trigger] "last"@[i] <= 'z',
        forall|i: int| 0 <= i < "since"@.len() ==> 'a' <= #[trigger] "since"@[i] <= 'z',
        forall|i: int| 0 <= i < "contains"@.len() ==> 'a' <= #[trigger] "contains"@[i] <= 'z',
        forall|i: int| 0 <= i < "true"@.len() ==> 'a' <= #[trigger] "true"@[i] <= 'z',
        forall|i: int| 0 <= i < "false"@.len() ==> 'a' <= #[trigger] "false"@[i] <= 'z',
        "or"@.len() == 2,
        "and"@.len() == 3,
        "last"@.len() == 4,
        "true"@.len() == 4,
        "since"@.len() == 5,
        "false"@.len() == 5,
        "contains"@.len() == 8,
        "last"@ != "true"@,
        "since"@ != "false"@,
{
    reveal_strlit("and");
    reveal_strlit("or");
    reveal_strlit("last");
    reveal_strlit("since");
    reveal_strlit("contains");
    reveal_strlit("true");
    reveal_strlit("false");
    assert("last"@[0] == 'l' && "true"@[0] == 't');
    assert("since"@[0] == 's' && "false"@[0] == 'f');
}

proof fn quote_ends(s: Seq<char>, i: int, k: int)
    requires
        0 <= i <= k < s.len(),
        s[k] == '"',
        forall|j: int| i <= j < k ==> #[trigger] s[j] != '"',
    ensures
        lexer::quote_end(s, i) == k,
    decreases k - i,
{
    if i < k {
        quote_ends(s, i + 1, k);
    }
}

proof fn quoted_is_one_token(q: Seq<char>)
    requires
        !q.contains('"'),
    ensures
        lexer::tokens_of(quoted(q)) == one_token(KindModel::Quoted(q)),
{
    let s = quoted(q);
    assert forall|j: int| 1 <= j < q.len() + 1 implies #[trigger] s[j] != '"' by {
        assert(s[j] == q[j - 1]);
    }
    quote_ends(s, 1, q.len() as int + 1);
    assert(s.subrange(1, q.len() as int + 1) == q);
    assert(lexer::tokens_from(s, s.len() as int) == Ok::<_, Fault>(Seq::<TokenModel>::empty()));
    assert(seq![TokenModel { kind: KindModel::Quoted(q), at: 0 }] + Seq::<TokenModel>::empty()
        == seq![TokenModel { kind: KindModel::Quoted(q), at: 0 }]);
}

/// Whether a number does not go on into what follows.
pub open spec fn ends_number(c: char) -> bool {
    !('0' <= c <= '9') && c != '.' && c != '-' && c != ':'
}

proof fn number_ends(s: Seq<char>, i: int, k: int, pointed: bool)
    requires
        0 <= i <= k <= s.len(),
        forall|j: int| i <= j < k ==> '0' <= #[trigger] s[j] <= '9',
        k < s.len() ==> ends_number(s[k]),
    ensures
        lexer::number_end(s, i, pointed) == (k, false),
    decreases k - i,
{
    if i < k {
        number_ends(s, i + 1, k, pointed);
    }
}

/// A numeral, perhaps with a sign, and then a text that a number does not go on into.
proof fn number_comes_first(t: Seq<char>, rest: Seq<char>)
    requires
        text::numeral(query::unsigned(t)),
        rest.len() > 0 ==> ends_number(rest[0]),
    ensures
        match lexer::tokens_of(rest) {
            Ok(toks) => lexer::tokens_of(t + rest) == Ok::<_, Fault>(
                seq![TokenModel { kind: KindModel::Number(t), at: 0 }] + shifted(
                    toks,
                    t.len() as int,
                ),
            ),
            Err((kind, at)) => lexer::tokens_of(t + rest) == Err::<Seq<TokenModel>, _>(
                (kind, at + t.len()),
            ),
        },
{
    let s = t + rest;
    let body = query::unsigned(t);
    let off = t.len() - body.len();
    assert(text::digit(body[0]));
    assert forall|j: int| off <= j < t.len() implies '0' <= #[trigger] s[j] <= '9' by {
        assert(text::digit(body[j - off]));
        assert(s[j] == t[j]);
    }
    assert(s[0] == t[0]);
    if off == 1 {
        assert(s[1] == t[1]);
    }
    if rest.len() > 0 {
        assert(s[t.len() as int] == rest[0]);
    }
    number_ends(s, 1, t.len() as int, false);
    assert(s.subrange(0, t.len() as int) == t);
    tokens_shift(t, rest, 0);
}

proof fn number_is_one_token(t: Seq<char>)
    requires
        text::numeral(query::unsigned(t)),
    ensures
        lexer::tokens_of(t) == one_token(KindModel::Number(t)),
{
    let none = Seq::<char>::empty();
    number_comes_first(t, none);
    assert(t + none == t);
    assert(lexer::tokens_of(none) == Ok::<_, Fault>(Seq::<TokenModel>::empty()));
    let first = seq![TokenModel { kind: KindModel::Number(t), at: 0 }];
    assert(first + shifted(Seq::<TokenModel>::empty(), t.len() as int) == first);
}

/// A number with a point in it, perhaps with a sign, is one token.
proof fn fraction_is_one_token(whole: Seq<char>, part: Seq<char>)
    requires
        text::numeral(query::unsigned(whole)),
        text::all_digits(part),
    ensures
        lexer::tokens_of(whole + seq!['.'] + part) == one_token(
            KindModel::Number(whole + seq!['.'] + part),
        ),
{
    let t = whole + seq!['.'] + part;
    let k = whole.len() as int;
    let body = query::unsigned(whole);
    let off = whole.len() - body.len();
    assert(text::digit(body[0]));
    assert forall|j: int| off <= j < k implies '0' <= #[trigger] t[j] <= '9' by {
        assert(text::digit(body[j - off]));
        assert(t[j] == whole[j]);
    }
    assert forall|j: int| k < j < t.len() implies '0' <= #[trigger] t[j] <= '9' by {
        assert(text::digit(part[j - k - 1]));
    }
    assert(t[0] == whole[0]);
    if off == 1 {
        assert(t[1] == whole[1]);
    }
    assert(t[k] == '.');
    number_ends(t, k + 1, t.len() as int, true);
    assert(lexer::number_end(t, k, false) == lexer::number_end(t, k + 1, true));
    digits_pass(t, 1, k);
    assert(t.subrange(0, t.len() as int) == t);
    assert(lexer::tokens_from(t, t.len() as int) == Ok::<_, Fault>(Seq::<TokenModel>::empty()));
    let first = seq![TokenModel { kind: KindModel::Number(t), at: 0 }];
    assert(first + Seq::<TokenModel>::empty() == first);
}

proof fn digits_pass(s: Seq<char>, i: int, k: int)
    requires
        0 <= i <= k <= s.len(),
        forall|j: int| i <= j < k ==> '0' <= #[trigger] s[j] <= '9',
    ensures
        lexer::number_end(s, i, false) == lexer::number_end(s, k, false),
    decreases k - i,
{
    if i < k {
        digits_pass(s, i + 1, k);
    }
}

/// A word that begins with digits, as dates and times do: what comes after them is `-` or `:`.
pub open spec fn date_word(w: Seq<char>, k: int) -> bool {
    &&& 0 < k < w.len()
    &&& forall|i: int| 0 <= i < k ==> '0' <= #[trigger] w[i] <= '9'
    &&& w[k] == '-' || w[k] == ':'
    &&& forall|i: int| k <= i < w.len() ==> bare_char(#[trigger] w[i])
}

proof fn date_is_one_token(w: Seq<char>, k: int)
    requires
        date_word(w, k),
    ensures
        lexer::tokens_of(w) == one_token(KindModel::Word(w)),
{
    assert forall|j: int| k <= j < w.len() implies lexer::word_char(#[trigger] w[j]) by {
        assert(bare_char(w[j]));
    }
    digits_pass(w, 1, k);
    word_goes_to_the_end(w, k);
    assert(lexer::number_end(w, k, false) == (w.len() as int, true));
    assert('0' <= w[0] <= '9');
    assert(w.subrange(0, w.len() as int) == w);
    assert(lexer::tokens_from(w, w.len() as int) == Ok::<_, Fault>(Seq::<TokenModel>::empty()));
    let first = seq![TokenModel { kind: KindModel::Word(w), at: 0 }];
    assert(first + Seq::<TokenModel>::empty() == first);
}

/// The tokens of two texts with a space between them.
proof fn spaced_tokens(x: Seq<char>, y: Seq<char>)
    requires
        lexer::tokens_of(x) is Ok,
    ensures
        match lexer::tokens_of(y) {
            Ok(toks) => lexer::tokens_of(x + seq![' '] + y) == Ok::<_, Fault>(
                lexer::tokens_of(x)->Ok_0 + shifted(toks, x.len() as int + 1),
            ),
            Err((kind, at)) => lexer::tokens_of(x + seq![' '] + y) == Err::<Seq<TokenModel>, _>(
                (kind, at + x.len() + 1),
            ),
        },
{
    let rest = seq![' '] + y;
    assert(x + seq![' '] + y == x + rest);
    assert(rest[0] == ' ');
    tokens_add_up(x, rest);
    white_space_in_front(' ', y);
    if let Ok(toks) = lexer::tokens_of(y) {
        assert(shifted(shifted(toks, 1), x.len() as int) == shifted(toks, x.len() as int + 1));
    }
}

proof fn sign_tokens(op: CompareOp, v: Seq<char>)
    requires
        lexer::tokens_of(v) is Ok,
    ensures
        lexer::tokens_of(sign(op) + v) == Ok::<_, Fault>(
            seq![TokenModel { kind: KindModel::Op(op), at: 0 }] + shifted(
                lexer::tokens_of(v)->Ok_0,
                sign(op).len() as int,
            ),
        ),
{
    let s = sign(op) + v;
    assert(s[0] == sign(op)[0]);
    if op is NotEq {
        assert(s[1] == sign(op)[1]);
    }
    tokens_shift(sign(op), v, 0);
}

// ---------------------------------------------------------------------------
// Laws: which clause a text is
// ---------------------------------------------------------------------------

/// A query of one clause.
pub open spec fn just(clause: ClauseModel) -> Result<Seq<ClauseModel>, Fault> {
    Ok(seq![clause])
}

/// A comparison written without spaces.
pub open spec fn tight(f: Seq<char>, op: CompareOp, v: Seq<char>) -> Seq<char> {
    f + (sign(op) + v)
}

/// A comparison written with a space on each side of the sign.
pub open spec fn loose(f: Seq<char>, op: CompareOp, v: Seq<char>) -> Seq<char> {
    f + seq![' '] + (sign(op) + seq![' '] + v)
}

/// Whether a text has these three tokens.
pub open spec fn three_tokens(
    s: Seq<char>,
    first: KindModel,
    second: KindModel,
    third: KindModel,
) -> bool {
    lexer::tokens_of(s) matches Ok(toks) && toks.len() == 3 && toks[0].kind == first
        && toks[1].kind == second && toks[2].kind == third
}

proof fn comparison_tokens(f: Seq<char>, op: CompareOp, v: Seq<char>, kind: KindModel)
    requires
        field(f),
        lexer::tokens_of(v) == one_token(kind),
    ensures
        three_tokens(tight(f, op, v), KindModel::Word(f), KindModel::Op(op), kind),
        three_tokens(loose(f, op, v), KindModel::Word(f), KindModel::Op(op), kind),
{
    word_is_one_token(f);
    sign_tokens(op, v);
    let close = sign(op) + v;
    assert(close[0] == sign(op)[0]);
    tokens_add_up(f, close);
    let wide = seq![' '] + v;
    white_space_in_front(' ', v);
    sign_tokens(op, wide);
    assert(sign(op) + seq![' '] + v == sign(op) + wide);
    spaced_tokens(f, sign(op) + wide);
}

proof fn field_is_a_name(f: Seq<char>)
    requires
        field(f),
    ensures
        query::field_name(f),
{
    assert forall|i: int| 0 <= i < f.len() implies query::field_char(#[trigger] f[i]) by {
        assert(bare_char(f[i]));
    }
}

proof fn comparison_is_read(
    f: Seq<char>,
    op: CompareOp,
    v: Seq<char>,
    kind: KindModel,
    value: ValueModel,
)
    requires
        field(f),
        lexer::tokens_of(v) == one_token(kind),
        forall|toks: Seq<TokenModel>, end: int|
            toks.len() == 3 && toks[2].kind == kind ==> (#[trigger] query_parser::value_at(
                toks,
                2,
                end,
            )) == Ok::<_, Fault>(value),
    ensures
        query_parser::parsed(tight(f, op, v)) == just(
            ClauseModel::Compare { field: f, op, value },
        ),
        query_parser::parsed(loose(f, op, v)) == just(
            ClauseModel::Compare { field: f, op, value },
        ),
{
    comparison_tokens(f, op, v, kind);
    field_is_a_name(f);
    three_tokens_are_a_comparison(tight(f, op, v), f, op, kind, value);
    three_tokens_are_a_comparison(loose(f, op, v), f, op, kind, value);
}

proof fn three_tokens_are_a_comparison(
    s: Seq<char>,
    f: Seq<char>,
    op: CompareOp,
    kind: KindModel,
    value: ValueModel,
)
    requires
        field(f),
        query::field_name(f),
        three_tokens(s, KindModel::Word(f), KindModel::Op(op), kind),
        query_parser::value_at(lexer::tokens_of(s)->Ok_0, 2, s.len() as int) == Ok::<_, Fault>(
            value,
        ),
    ensures
        query_parser::parsed(s) == just(ClauseModel::Compare { field: f, op, value }),
{
    let toks = lexer::tokens_of(s)->Ok_0;
    let end = s.len() as int;
    let clause = ClauseModel::Compare { field: f, op, value };
    assert(query_parser::clause_at(toks, 0, end) == Ok::<_, Fault>((clause, 3int)));
    assert(query_parser::rest_at(toks, 3, end) == Ok::<_, Fault>(Seq::<ClauseModel>::empty()));
    assert(seq![clause] + Seq::<ClauseModel>::empty() == seq![clause]);
}

/// A field compared with a bare word: the clause compares that very field with that very word.
pub proof fn words_are_compared(f: Seq<char>, op: CompareOp, w: Seq<char>)
    requires
        field(f),
        value_word(w),
    ensures
        query_parser::parsed(tight(f, op, w)) == just(
            ClauseModel::Compare { field: f, op, value: ValueModel::Text(w) },
        ),
        query_parser::parsed(loose(f, op, w)) == just(
            ClauseModel::Compare { field: f, op, value: ValueModel::Text(w) },
        ),
{
    word_is_one_token(w);
    comparison_is_read(f, op, w, KindModel::Word(w), ValueModel::Text(w));
}

/// A field compared with a quoted text: the clause compares with what stands between the quotes,
/// whatever that is.
pub proof fn quoted_texts_are_compared(f: Seq<char>, op: CompareOp, q: Seq<char>)
    requires
        field(f),
        !q.contains('"'),
    ensures
        query_parser::parsed(tight(f, op, quoted(q))) == just(
            ClauseModel::Compare { field: f, op, value: ValueModel::Text(q) },
        ),
        query_parser::parsed(loose(f, op, quoted(q))) == just(
            ClauseModel::Compare { field: f, op, value: ValueModel::Text(q) },
        ),
{
    quoted_is_one_token(q);
    comparison_is_read(f, op, quoted(q), KindModel::Quoted(q), ValueModel::Text(q));
}

/// The numeral of an integer, with a sign in front if it is negative.
pub open spec fn integer_numeral(n: int) -> Seq<char> {
    if n < 0 {
        seq!['-'] + text::decimal((-n) as nat)
    } else {
        text::decimal(n as nat)
    }
}

/// The numeral of an integer denotes it, and has no point.
pub proof fn integer_numeral_denotes(n: int)
    ensures
        text::numeral(query::unsigned(integer_numeral(n))),
        query_parser::integer_value(integer_numeral(n)) == n,
        !query::fraction_numeral(integer_numeral(n)),
{
    let t = integer_numeral(n);
    let digits = text::decimal(if n < 0 { (-n) as nat } else { n as nat });
    text::decimal_denotes(if n < 0 { (-n) as nat } else { n as nat });
    assert(text::digit(digits[0]));
    if n < 0 {
        assert(t.drop_first() == digits);
    }
    assert(query::unsigned(t) == digits);
    assert forall|k: int| !query::point_at(digits, k) by {
        if 0 < k < digits.len() {
            assert(text::digit(digits[k]));
        }
    }
}

/// A field compared with an integer of 64 bits: the clause compares with that integer.
pub proof fn integers_are_compared(f: Seq<char>, op: CompareOp, n: int)
    requires
        field(f),
        i64::MIN <= n <= i64::MAX,
    ensures
        query_parser::parsed(tight(f, op, integer_numeral(n))) == just(
            ClauseModel::Compare { field: f, op, value: ValueModel::Integer(n) },
        ),
        query_parser::parsed(loose(f, op, integer_numeral(n))) == just(
            ClauseModel::Compare { field: f, op, value: ValueModel::Integer(n) },
        ),
{
    let t = integer_numeral(n);
    integer_numeral_denotes(n);
    number_is_one_token(t);
    comparison_is_read(f, op, t, KindModel::Number(t), ValueModel::Integer(n));
}

/// A field compared with a number that has a point, perhaps with a sign: the clause compares with
/// that number, as it is written.
pub proof fn fractions_are_compared(f: Seq<char>, op: CompareOp, whole: Seq<char>, part: Seq<char>)
    requires
        field(f),
        text::numeral(query::unsigned(whole)),
        text::all_digits(part),
    ensures
        ({
            let t = whole + seq!['.'] + part;
            let clause = ClauseModel::Compare { field: f, op, value: ValueModel::Float(t) };
            &&& query_parser::parsed(tight(f, op, t)) == just(clause)
            &&& query_parser::parsed(loose(f, op, t)) == just(clause)
        }),
{
    let t = whole + seq!['.'] + part;
    let body = query::unsigned(whole);
    fraction_is_one_token(whole, part);
    assert(text::digit(body[0]));
    assert(t[0] == whole[0]);
    assert(query::unsigned(t) == body + seq!['.'] + part);
    let k = body.len() as int;
    assert(query::unsigned(t).take(k) == body);
    assert(query::unsigned(t).skip(k + 1) == part);
    assert(query::point_at(query::unsigned(t), k));
    comparison_is_read(f, op, t, KindModel::Number(t), ValueModel::Float(t));
}

/// A field compared with a word that begins with digits, as dates do: the clause compares with that
/// very word, as a text.
pub proof fn dates_are_compared(f: Seq<char>, op: CompareOp, w: Seq<char>, k: int)
    requires
        field(f),
        date_word(w, k),
    ensures
        query_parser::parsed(tight(f, op, w)) == just(
            ClauseModel::Compare { field: f, op, value: ValueModel::Text(w) },
        ),
        query_parser::parsed(loose(f, op, w)) == just(
            ClauseModel::Compare { field: f, op, value: ValueModel::Text(w) },
        ),
{
    date_is_one_token(w, k);
    date_is_no_keyword(w, k);
    comparison_is_read(f, op, w, KindModel::Word(w), ValueModel::Text(w));
}

proof fn date_is_no_keyword(w: Seq<char>, k: int)
    requires
        date_word(w, k),
    ensures
        text::folded(w) != "and"@,
        text::folded(w) != "or"@,
        text::folded(w) != "true"@,
        text::folded(w) != "false"@,
{
    keywords_are_words();
    assert('0' <= w[0] <= '9');
    assert(text::folded(w)[0] == w[0]);
    assert('a' <= "and"@[0] && 'a' <= "or"@[0] && 'a' <= "true"@[0] && 'a' <= "false"@[0]);
}

/// A field compared with an integer beyond 64 bits is refused, at the integer.
pub proof fn great_integers_are_refused(f: Seq<char>, op: CompareOp, n: int)
    requires
        field(f),
        n < i64::MIN || n > i64::MAX,
    ensures
        query_parser::parsed(tight(f, op, integer_numeral(n))) == Err::<Seq<ClauseModel>, _>(
            (QueryErrorKind::IntegerOutOfRange, (f + sign(op)).len() as int),
        ),
{
    let t = integer_numeral(n);
    let s = tight(f, op, t);
    integer_numeral_denotes(n);
    number_is_one_token(t);
    word_is_one_token(f);
    field_is_a_name(f);
    sign_tokens(op, t);
    let close = sign(op) + t;
    assert(close[0] == sign(op)[0]);
    tokens_add_up(f, close);
    let toks = lexer::tokens_of(s)->Ok_0;
    assert(toks.len() == 3 && toks[0].kind == KindModel::Word(f) && toks[1].kind == KindModel::Op(
        op,
    ) && toks[2].kind == KindModel::Number(t));
    assert(toks[2].at == f.len() + sign(op).len());
}

/// A comparison that begins with a word that no field may have as its name is refused, at the word.
pub proof fn other_names_are_refused(w: Seq<char>, i: int, op: CompareOp, v: Seq<char>)
    requires
        bare_word(w),
        no_keyword(w),
        0 <= i < w.len(),
        w[i] == '-' || w[i] == ':' || beyond_ascii(w[i]),
        lexer::tokens_of(v) is Ok,
    ensures
        query_parser::parsed(tight(w, op, v)) == Err::<Seq<ClauseModel>, _>(
            (QueryErrorKind::InvalidFieldName, 0int),
        ),
{
    word_is_one_token(w);
    sign_tokens(op, v);
    let close = sign(op) + v;
    assert(close[0] == sign(op)[0]);
    tokens_add_up(w, close);
    let toks = lexer::tokens_of(tight(w, op, v))->Ok_0;
    assert(toks[0] == (TokenModel { kind: KindModel::Word(w), at: 0 }));
    assert(!query::field_char(w[i]));
}

/// A quote without another is refused, at the quote.
pub proof fn open_quotes_are_refused(q: Seq<char>)
    requires
        !q.contains('"'),
    ensures
        query_parser::parsed(seq!['"'] + q) == Err::<Seq<ClauseModel>, _>(
            (QueryErrorKind::UnterminatedString, 0int),
        ),
{
    let s = seq!['"'] + q;
    assert forall|j: int| 1 <= j < s.len() implies #[trigger] s[j] != '"' by {
        assert(s[j] == q[j - 1]);
    }
    quote_never_ends(s, 1);
}

proof fn quote_never_ends(s: Seq<char>, i: int)
    requires
        0 <= i <= s.len(),
        forall|j: int| i <= j < s.len() ==> #[trigger] s[j] != '"',
    ensures
        lexer::quote_end(s, i) == s.len(),
    decreases s.len() - i,
{
    if i < s.len() {
        quote_never_ends(s, i + 1);
    }
}

/// A field compared with `true` or `false`, in any case: the clause compares with that truth value.
pub proof fn truth_values_are_compared(f: Seq<char>, op: CompareOp, w: Seq<char>)
    requires
        field(f),
        text::folded(w) == "true"@ || text::folded(w) == "false"@,
    ensures
        ({
            let value = ValueModel::Bool(text::folded(w) == "true"@);
            let clause = ClauseModel::Compare { field: f, op, value };
            &&& query_parser::parsed(tight(f, op, w)) == just(clause)
            &&& query_parser::parsed(loose(f, op, w)) == just(clause)
        }),
{
    keywords_are_words();
    keyword_is_bare(w, text::folded(w));
    word_is_one_token(w);
    comparison_is_read(
        f,
        op,
        w,
        KindModel::Word(w),
        ValueModel::Bool(text::folded(w) == "true"@),
    );
}

proof fn two_spaces(
    x: Seq<char>,
    y: Seq<char>,
    z: Seq<char>,
    a: KindModel,
    b: KindModel,
    c: KindModel,
)
    requires
        lexer::tokens_of(x) == one_token(a),
        lexer::tokens_of(y) == one_token(b),
        lexer::tokens_of(z) == one_token(c),
    ensures
        three_tokens(x + seq![' '] + (y + seq![' '] + z), a, b, c),
{
    spaced_tokens(y, z);
    spaced_tokens(x, y + seq![' '] + z);
}

/// `field CONTAINS "text"`, with the keyword in any case: the clause looks for that very text in
/// that very field.
pub proof fn contained_texts_are_looked_for(f: Seq<char>, word: Seq<char>, q: Seq<char>)
    requires
        field(f),
        text::folded(word) == "contains"@,
        !q.contains('"'),
    ensures
        query_parser::parsed(f + seq![' '] + (word + seq![' '] + quoted(q))) == just(
            ClauseModel::Contains { field: f, value: q },
        ),
{
    keywords_are_words();
    keyword_is_bare(word, "contains"@);
    word_is_one_token(f);
    word_is_one_token(word);
    quoted_is_one_token(q);
    two_spaces(
        f,
        word,
        quoted(q),
        KindModel::Word(f),
        KindModel::Word(word),
        KindModel::Quoted(q),
    );
    containment_is_read(
        f + seq![' '] + (word + seq![' '] + quoted(q)),
        f,
        word,
        KindModel::Quoted(q),
        q,
    );
}

/// `field CONTAINS word`, with the keyword in any case: the clause looks for that very word in that
/// very field.
pub proof fn contained_words_are_looked_for(f: Seq<char>, word: Seq<char>, w: Seq<char>)
    requires
        field(f),
        text::folded(word) == "contains"@,
        value_word(w),
    ensures
        query_parser::parsed(f + seq![' '] + (word + seq![' '] + w)) == just(
            ClauseModel::Contains { field: f, value: w },
        ),
{
    keywords_are_words();
    keyword_is_bare(word, "contains"@);
    word_is_one_token(f);
    word_is_one_token(word);
    word_is_one_token(w);
    two_spaces(f, word, w, KindModel::Word(f), KindModel::Word(word), KindModel::Word(w));
    containment_is_read(f + seq![' '] + (word + seq![' '] + w), f, word, KindModel::Word(w), w);
}

proof fn containment_is_read(
    s: Seq<char>,
    f: Seq<char>,
    word: Seq<char>,
    kind: KindModel,
    value: Seq<char>,
)
    requires
        field(f),
        text::folded(word) == "contains"@,
        three_tokens(s, KindModel::Word(f), KindModel::Word(word), kind),
        kind == KindModel::Quoted(value) || (kind == KindModel::Word(value) && text::folded(value)
            != "and"@ && text::folded(value) != "or"@),
    ensures
        query_parser::parsed(s) == just(ClauseModel::Contains { field: f, value }),
{
    field_is_a_name(f);
    let toks = lexer::tokens_of(s)->Ok_0;
    let end = s.len() as int;
    let clause = ClauseModel::Contains { field: f, value };
    assert(query_parser::string_at(toks, 2) == Some(value));
    assert(query_parser::clause_at(toks, 0, end) == Ok::<_, Fault>((clause, 3int)));
    assert(query_parser::rest_at(toks, 3, end) == Ok::<_, Fault>(Seq::<ClauseModel>::empty()));
    assert(seq![clause] + Seq::<ClauseModel>::empty() == seq![clause]);
}

/// The letter of a unit.
pub open spec fn unit_letter(unit: DurationUnit) -> char {
    match unit {
        DurationUnit::Minutes => 'm',
        DurationUnit::Hours => 'h',
        DurationUnit::Days => 'd',
    }
}

/// `last 30m`, with the keyword in any case: the clause is of so many of that unit.
pub proof fn durations_are_read(word: Seq<char>, n: nat, unit: DurationUnit)
    requires
        text::folded(word) == "last"@,
        n <= u64::MAX,
    ensures
        query_parser::parsed(word + seq![' '] + (text::decimal(n) + seq![unit_letter(unit)]))
            == just(ClauseModel::LastDuration(Duration { amount: n as u64, unit })),
{
    let t = text::decimal(n);
    let u = seq![unit_letter(unit)];
    let s = word + seq![' '] + (t + u);
    keywords_are_words();
    keyword_is_bare(word, "last"@);
    word_is_one_token(word);
    text::decimal_denotes(n);
    assert(text::digit(t[0]));
    assert(query::unsigned(t) == t);
    word_is_one_token(u);
    number_comes_first(t, u);
    spaced_tokens(word, t + u);
    reveal_strlit("m");
    reveal_strlit("h");
    reveal_strlit("d");
    assert("m"@ == seq!['m'] && "h"@ == seq!['h'] && "d"@ == seq!['d']);
    assert("m"@[0] == 'm' && "h"@[0] == 'h' && "d"@[0] == 'd');
    let toks = lexer::tokens_of(s)->Ok_0;
    let end = s.len() as int;
    assert(toks.len() == 3);
    assert(toks[0].kind == KindModel::Word(word));
    assert(toks[1].kind == KindModel::Number(t));
    assert(toks[2].kind == KindModel::Word(u));
    assert(query_parser::unit_at(toks, 2) == Some(unit));
    let clause = ClauseModel::LastDuration(Duration { amount: n as u64, unit });
    assert(query_parser::clause_at(toks, 0, end) == Ok::<_, Fault>((clause, 3int)));
    assert(query_parser::rest_at(toks, 3, end) == Ok::<_, Fault>(Seq::<ClauseModel>::empty()));
    assert(seq![clause] + Seq::<ClauseModel>::empty() == seq![clause]);
}

/// A number of anything but minutes, hours and days is refused, and so is one beyond 64 bits.
pub proof fn other_durations_are_refused(word: Seq<char>, n: nat, u: Seq<char>)
    requires
        text::folded(word) == "last"@,
        bare_word(u),
        u != seq!['m'],
        u != seq!['h'],
        u != seq!['d'],
    ensures
        query_parser::parsed(word + seq![' '] + (text::decimal(n) + u)) == Err::<
            Seq<ClauseModel>,
            _,
        >(
            if n > u64::MAX {
                (QueryErrorKind::IntegerOutOfRange, word.len() as int + 1)
            } else {
                (
                    QueryErrorKind::ExpectedDurationUnit,
                    word.len() as int + 1 + text::decimal(n).len(),
                )
            },
        ),
{
    let t = text::decimal(n);
    let s = word + seq![' '] + (t + u);
    keywords_are_words();
    keyword_is_bare(word, "last"@);
    word_is_one_token(word);
    text::decimal_denotes(n);
    assert(text::digit(t[0]));
    assert(query::unsigned(t) == t);
    word_is_one_token(u);
    number_comes_first(t, u);
    spaced_tokens(word, t + u);
    reveal_strlit("m");
    reveal_strlit("h");
    reveal_strlit("d");
    assert("m"@ == seq!['m'] && "h"@ == seq!['h'] && "d"@ == seq!['d']);
    let toks = lexer::tokens_of(s)->Ok_0;
    assert(toks.len() == 3);
    assert(toks[0].kind == KindModel::Word(word));
    assert(toks[1].kind == KindModel::Number(t) && toks[1].at == word.len() + 1);
    assert(toks[2].kind == KindModel::Word(u) && toks[2].at == word.len() + 1 + t.len());
    assert(query_parser::unit_at(toks, 2) is None);
}

/// A conjunction is no value, and a number is nothing to look for in a text.
pub proof fn other_values_are_refused(
    f: Seq<char>,
    op: CompareOp,
    w: Seq<char>,
    c: Seq<char>,
    n: int,
)
    requires
        field(f),
        text::folded(w) == "and"@ || text::folded(w) == "or"@,
        text::folded(c) == "contains"@,
    ensures
        query_parser::parsed(tight(f, op, w)) matches Err((QueryErrorKind::ExpectedValue, _)),
        query_parser::parsed(f + seq![' '] + (c + seq![' '] + integer_numeral(n))) matches Err(
            (QueryErrorKind::ExpectedValue, _),
        ),
{
    keywords_are_words();
    keyword_is_bare(w, text::folded(w));
    keyword_is_bare(c, "contains"@);
    word_is_one_token(w);
    word_is_one_token(f);
    word_is_one_token(c);
    field_is_a_name(f);
    comparison_tokens(f, op, w, KindModel::Word(w));
    let t = integer_numeral(n);
    integer_numeral_denotes(n);
    number_is_one_token(t);
    two_spaces(f, c, t, KindModel::Word(f), KindModel::Word(c), KindModel::Number(t));
    let toks = lexer::tokens_of(tight(f, op, w))->Ok_0;
    assert(query_parser::conjunction(toks, 2));
    let others = lexer::tokens_of(f + seq![' '] + (c + seq![' '] + t))->Ok_0;
    assert(query_parser::string_at(others, 2) is None);
}

proof fn datetime_is_read(word: Seq<char>, d: Seq<char>, kind: KindModel, datetime: Seq<char>)
    requires
        text::folded(word) == "since"@,
        lexer::tokens_of(d) == one_token(kind),
        kind == KindModel::Quoted(datetime) || (kind == KindModel::Word(datetime)
            && text::folded(datetime) != "and"@ && text::folded(datetime) != "or"@),
    ensures
        query_parser::parsed(word + seq![' '] + d) == just(ClauseModel::SinceDatetime(datetime)),
{
    let s = word + seq![' '] + d;
    keywords_are_words();
    keyword_is_bare(word, "since"@);
    word_is_one_token(word);
    spaced_tokens(word, d);
    let toks = lexer::tokens_of(s)->Ok_0;
    let end = s.len() as int;
    assert(toks.len() == 2 && toks[0].kind == KindModel::Word(word) && toks[1].kind == kind);
    let clause = ClauseModel::SinceDatetime(datetime);
    assert(query_parser::clause_at(toks, 0, end) == Ok::<_, Fault>((clause, 2int)));
    assert(query_parser::rest_at(toks, 2, end) == Ok::<_, Fault>(Seq::<ClauseModel>::empty()));
    assert(seq![clause] + Seq::<ClauseModel>::empty() == seq![clause]);
}

/// `since "2026-04-20 10:00:00"`, with the keyword in any case: the clause begins at the datetime
/// between the quotes.
pub proof fn quoted_datetimes_are_read(word: Seq<char>, q: Seq<char>)
    requires
        text::folded(word) == "since"@,
        !q.contains('"'),
    ensures
        query_parser::parsed(word + seq![' '] + quoted(q)) == just(ClauseModel::SinceDatetime(q)),
{
    quoted_is_one_token(q);
    datetime_is_read(word, quoted(q), KindModel::Quoted(q), q);
}

/// `since 2026-04-20T10:00:00Z`, with the keyword in any case: the clause begins at the datetime as
/// it is written.
pub proof fn bare_datetimes_are_read(word: Seq<char>, d: Seq<char>, k: int)
    requires
        text::folded(word) == "since"@,
        date_word(d, k),
    ensures
        query_parser::parsed(word + seq![' '] + d) == just(ClauseModel::SinceDatetime(d)),
{
    date_is_one_token(d, k);
    date_is_no_keyword(d, k);
    datetime_is_read(word, d, KindModel::Word(d), d);
}

// ---------------------------------------------------------------------------
// Laws: queries after each other
// ---------------------------------------------------------------------------

/// Two queries joined by `AND`, in any case, ask for the clauses of the first and then for those of
/// the second, all of them. What is wrong with the second is found where it stands.
pub proof fn conjunction_joins(x: Seq<char>, word: Seq<char>, y: Seq<char>)
    requires
        query_parser::parsed(x) is Ok,
        text::folded(word) == "and"@,
    ensures
        ({
            let s = x + seq![' '] + (word + seq![' '] + y);
            match query_parser::parsed(y) {
                Ok(clauses) => query_parser::parsed(s) == Ok::<_, Fault>(
                    query_parser::parsed(x)->Ok_0 + clauses,
                ),
                Err((kind, at)) => kind !is Empty ==> query_parser::parsed(s) == Err::<
                    Seq<ClauseModel>,
                    _,
                >((kind, at + x.len() + word.len() + 2)),
            }
        }),
{
    let tail = word + seq![' '] + y;
    let s = x + seq![' '] + tail;
    let d = x.len() + word.len() + 2;
    keywords_are_words();
    keyword_is_bare(word, "and"@);
    word_is_one_token(word);
    spaced_tokens(word, y);
    spaced_tokens(x, tail);
    if let Ok(b) = lexer::tokens_of(y) {
        let a = lexer::tokens_of(x)->Ok_0;
        let joint = TokenModel { kind: KindModel::Word(word), at: x.len() as int + 1 };
        let second = seq![TokenModel { kind: KindModel::Word(word), at: 0 }] + shifted(
            b,
            word.len() as int + 1,
        );
        assert(a + shifted(second, x.len() as int + 1) == a + seq![joint] + shifted(b, d as int));
        if b.len() > 0 {
            conjoined_tokens_add_up(a, joint, b, d as int, x.len() as int, y.len() as int);
            assert(y.len() + d == s.len());
        }
    }
}

/// A time range may follow a query without `AND`: its clause is asked for as well.
pub proof fn ranges_join(x: Seq<char>, word: Seq<char>, z: Seq<char>)
    requires
        query_parser::parsed(x) is Ok,
        text::folded(word) == "last"@ || text::folded(word) == "since"@,
    ensures
        ({
            let y = word + seq![' '] + z;
            let s = x + seq![' '] + y;
            match query_parser::parsed(y) {
                Ok(clauses) => query_parser::parsed(s) == Ok::<_, Fault>(
                    query_parser::parsed(x)->Ok_0 + clauses,
                ),
                Err((kind, at)) => query_parser::parsed(s) == Err::<Seq<ClauseModel>, _>(
                    (kind, at + x.len() + 1),
                ),
            }
        }),
{
    let y = word + seq![' '] + z;
    let s = x + seq![' '] + y;
    keywords_are_words();
    keyword_is_bare(word, text::folded(word));
    word_is_one_token(word);
    spaced_tokens(word, z);
    spaced_tokens(x, y);
    if let Ok(b) = lexer::tokens_of(y) {
        let a = lexer::tokens_of(x)->Ok_0;
        assert(b[0].kind == KindModel::Word(word));
        following_range_adds_up(a, b, x.len() as int + 1, x.len() as int, y.len() as int);
        assert(y.len() + x.len() + 1 == s.len());
    }
}

/// What follows a query without joining it is refused where it stands: `OR` is not part of the
/// language, and anything else but `AND` and a time range lacks an `AND`. Nothing is passed over.
pub proof fn nothing_else_joins(x: Seq<char>, y: Seq<char>)
    requires
        query_parser::parsed(x) is Ok,
        lexer::tokens_of(y) matches Ok(b) && b.len() > 0 && !(b[0].kind matches KindModel::Word(w)
            && (text::folded(w) == "and"@ || text::folded(w) == "last"@ || text::folded(w)
            == "since"@)),
    ensures
        ({
            let first = lexer::tokens_of(y)->Ok_0[0];
            query_parser::parsed(x + seq![' '] + y) == Err::<Seq<ClauseModel>, _>(
                (
                    if first.kind matches KindModel::Word(w) && text::folded(w) == "or"@ {
                        QueryErrorKind::OrNotSupported
                    } else {
                        QueryErrorKind::ExpectedAnd
                    },
                    x.len() as int + 1 + first.at,
                ),
            )
        }),
{
    let s = x + seq![' '] + y;
    spaced_tokens(x, y);
    let a = lexer::tokens_of(x)->Ok_0;
    let b = lexer::tokens_of(y)->Ok_0;
    let rest = shifted(b, x.len() as int + 1);
    clauses_go_on(a, rest, x.len() as int, s.len() as int);
    assert((a + rest)[a.len() as int] == rest[0]);
}

/// A word or a quoted text behind a query is refused where it stands.
pub proof fn other_words_do_not_join(x: Seq<char>, word: Seq<char>, q: Seq<char>)
    requires
        query_parser::parsed(x) is Ok,
        bare_word(word),
        text::folded(word) != "and"@,
        text::folded(word) != "last"@,
        text::folded(word) != "since"@,
        !q.contains('"'),
    ensures
        query_parser::parsed(x + seq![' '] + word) == Err::<Seq<ClauseModel>, _>(
            (
                if text::folded(word) == "or"@ {
                    QueryErrorKind::OrNotSupported
                } else {
                    QueryErrorKind::ExpectedAnd
                },
                x.len() as int + 1,
            ),
        ),
        query_parser::parsed(x + seq![' '] + quoted(q)) == Err::<Seq<ClauseModel>, _>(
            (QueryErrorKind::ExpectedAnd, x.len() as int + 1),
        ),
{
    word_is_one_token(word);
    quoted_is_one_token(q);
    nothing_else_joins(x, word);
    nothing_else_joins(x, quoted(q));
}

/// White space in front of a query means nothing.
pub proof fn white_space_in_front_means_nothing(c: char, s: Seq<char>)
    requires
        text::white_space(c),
    ensures
        match query_parser::parsed(s) {
            Ok(clauses) => query_parser::parsed(seq![c] + s) == Ok::<_, Fault>(clauses),
            Err((kind, at)) => kind !is Empty ==> query_parser::parsed(seq![c] + s) == Err::<
                Seq<ClauseModel>,
                _,
            >((kind, at + 1)),
        },
{
    white_space_in_front(c, s);
    if let Ok(u) = lexer::tokens_of(s) {
        let none = Seq::<TokenModel>::empty();
        assert(none + shifted(u, 1) == shifted(u, 1));
        if u.len() > 0 {
            let end = s.len() as int;
            clause_shift(none, u, 1, 0, end);
            query_parser::clauses_advance(u, 0, end);
            if let Ok((_, next)) = query_parser::clause_at(u, 0, end) {
                rest_shift(none, u, 1, next, end);
            }
        }
    }
}

/// White space behind a query means nothing.
pub proof fn white_space_behind_means_nothing(s: Seq<char>, c: char)
    requires
        text::white_space(c),
        query_parser::parsed(s) is Ok,
    ensures
        query_parser::parsed(s + seq![c]) == query_parser::parsed(s),
{
    let after = seq![c];
    let none = Seq::<char>::empty();
    assert(lexer::tokens_of(none) == Ok::<_, Fault>(Seq::<TokenModel>::empty()));
    white_space_in_front(c, none);
    assert(after + none == after);
    tokens_add_up(s, after);
    let toks = lexer::tokens_of(s)->Ok_0;
    let no_tokens = Seq::<TokenModel>::empty();
    assert(shifted(shifted(no_tokens, 1), s.len() as int) == no_tokens);
    assert(toks + no_tokens == toks);
    clauses_go_on(toks, no_tokens, s.len() as int, (s + after).len() as int);
    let clauses = query_parser::parsed(s)->Ok_0;
    assert(clauses + Seq::<ClauseModel>::empty() == clauses);
}

proof fn blank_in_front_means_nothing(front: Seq<char>, s: Seq<char>)
    requires
        text::blank(front),
        query_parser::parsed(s) is Ok,
    ensures
        query_parser::parsed(front + s) == query_parser::parsed(s),
    decreases front.len(),
{
    if front.len() == 0 {
        assert(front + s == s);
    } else {
        let inner = front.drop_first();
        assert(text::white_space(front[0]));
        assert forall|i: int| 0 <= i < inner.len() implies text::white_space(
            #[trigger] inner[i],
        ) by {
            assert(inner[i] == front[i + 1]);
        }
        blank_in_front_means_nothing(inner, s);
        white_space_in_front_means_nothing(front[0], inner + s);
        assert(seq![front[0]] + (inner + s) == front + s);
    }
}

proof fn blank_behind_means_nothing(s: Seq<char>, back: Seq<char>)
    requires
        text::blank(back),
        query_parser::parsed(s) is Ok,
    ensures
        query_parser::parsed(s + back) == query_parser::parsed(s),
    decreases back.len(),
{
    if back.len() == 0 {
        assert(s + back == s);
    } else {
        let inner = back.drop_last();
        assert(text::white_space(back[back.len() - 1]));
        assert forall|i: int| 0 <= i < inner.len() implies text::white_space(
            #[trigger] inner[i],
        ) by {
            assert(inner[i] == back[i]);
        }
        blank_behind_means_nothing(s, inner);
        white_space_behind_means_nothing(s + inner, back.last());
        assert(s + inner + seq![back.last()] == s + back);
    }
}

/// A query with white space around it is the same query.
pub proof fn trimming_keeps_the_query(s: Seq<char>)
    requires
        query_parser::parsed(text::trimmed(s)) is Ok,
    ensures
        query_parser::parsed(s) == query_parser::parsed(text::trimmed(s)),
{
    let (i, j) = text::trimmed_is_the_middle(s);
    let middle = text::trimmed(s);
    blank_behind_means_nothing(middle, s.skip(j));
    blank_in_front_means_nothing(s.take(i), middle + s.skip(j));
    assert(s.take(i) + (middle + s.skip(j)) == s);
}

/// A text of white space alone is no query.
pub proof fn blank_is_no_query(s: Seq<char>)
    requires
        text::blank(s),
    ensures
        query_parser::parsed(s) == Err::<Seq<ClauseModel>, _>((QueryErrorKind::Empty, 0int)),
{
    blank_has_no_tokens(s, 0);
}

proof fn blank_has_no_tokens(s: Seq<char>, i: int)
    requires
        text::blank(s),
        0 <= i <= s.len(),
    ensures
        lexer::tokens_from(s, i) == Ok::<_, Fault>(Seq::<TokenModel>::empty()),
    decreases s.len() - i,
{
    if i < s.len() {
        assert(text::white_space(s[i]));
        blank_has_no_tokens(s, i + 1);
    }
}

/// A field alone lacks an operator, and a field with an operator lacks a value: both are found at
/// the end.
pub proof fn unfinished_clauses_are_refused(f: Seq<char>, op: CompareOp)
    requires
        field(f),
    ensures
        query_parser::parsed(f) == Err::<Seq<ClauseModel>, _>(
            (QueryErrorKind::ExpectedOperator, f.len() as int),
        ),
        query_parser::parsed(f + sign(op)) == Err::<Seq<ClauseModel>, _>(
            (QueryErrorKind::ExpectedValue, (f + sign(op)).len() as int),
        ),
{
    let none = Seq::<char>::empty();
    field_is_a_name(f);
    word_is_one_token(f);
    assert(lexer::tokens_of(none) == Ok::<_, Fault>(Seq::<TokenModel>::empty()));
    sign_tokens(op, none);
    assert(sign(op) + none == sign(op));
    assert(lexer::tokens_of(sign(op))->Ok_0.len() == 1);
    tokens_add_up(f, sign(op));
    let s = f + sign(op);
    let toks = lexer::tokens_of(s)->Ok_0;
    assert(toks.len() == 2 && toks[0].kind == KindModel::Word(f) && toks[1].kind
        == KindModel::Op(op));
    assert(query_parser::value_at(toks, 2, s.len() as int) == Err::<ValueModel, _>(
        (QueryErrorKind::ExpectedValue, s.len() as int),
    ));
}

} // verus!
