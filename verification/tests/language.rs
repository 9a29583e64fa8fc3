//! The query language.
use logdive::error::QueryErrorKind;
use logdive::lexer::{tokenize, TokenKind};
use logdive::query::Fraction;
use logdive::{
    parse_query, Clause, CompareOp, Duration, DurationUnit, QueryNode, QueryParseError, QueryValue,
};

fn clauses(q: &str) -> Vec<Clause> {
    let QueryNode::And(list) = parse_query(q).expect("a query");
    list
}

fn fault(q: &str) -> (QueryErrorKind, usize) {
    let QueryParseError { kind, position } = parse_query(q).expect_err("not a query");
    (kind, position)
}

fn compare(field: &str, op: CompareOp, value: QueryValue) -> Clause {
    Clause::Compare { field: field.to_string(), op, value }
}

fn text(s: &str) -> QueryValue {
    QueryValue::String(s.to_string())
}

#[test]
fn all_operators() {
    assert_eq!(clauses("a=b"), vec![compare("a", CompareOp::Eq, text("b"))]);
    assert_eq!(clauses("a != b"), vec![compare("a", CompareOp::NotEq, text("b"))]);
    assert_eq!(clauses("a>1"), vec![compare("a", CompareOp::Gt, QueryValue::Integer(1))]);
    assert_eq!(clauses("a <-1"), vec![compare("a", CompareOp::Lt, QueryValue::Integer(-1))]);
    assert_eq!(
        clauses("message contains \"bad request\""),
        vec![Clause::Contains {
            field: "message".to_string(),
            value: "bad request".to_string()
        }]
    );
}

#[test]
fn values() {
    assert_eq!(clauses("a=\"x y\""), vec![compare("a", CompareOp::Eq, text("x y"))]);
    assert_eq!(clauses("a=\"\""), vec![compare("a", CompareOp::Eq, text(""))]);
    assert_eq!(clauses("a=TRUE"), vec![compare("a", CompareOp::Eq, QueryValue::Bool(true))]);
    assert_eq!(clauses("a=false"), vec![compare("a", CompareOp::Eq, QueryValue::Bool(false))]);
    assert_eq!(clauses("a=\"true\""), vec![compare("a", CompareOp::Eq, text("true"))]);
    assert_eq!(
        clauses("a=1.5"),
        vec![compare("a", CompareOp::Eq, QueryValue::Float(Fraction::new("1.5").unwrap()))]
    );
    assert_eq!(clauses("version=1.2.3"), vec![compare("version", CompareOp::Eq, text("1.2.3"))]);
    assert_eq!(clauses("at=10:30"), vec![compare("at", CompareOp::Eq, text("10:30"))]);
    assert_eq!(
        clauses("a=9223372036854775807"),
        vec![compare("a", CompareOp::Eq, QueryValue::Integer(i64::MAX))]
    );
    assert_eq!(
        clauses("a=-9223372036854775808"),
        vec![compare("a", CompareOp::Eq, QueryValue::Integer(i64::MIN))]
    );
    assert_eq!(clauses("a=größe"), vec![compare("a", CompareOp::Eq, text("größe"))]);
    assert_eq!(clauses("a=last"), vec![compare("a", CompareOp::Eq, text("last"))]);
}

#[test]
fn time_ranges() {
    let last = |amount, unit| vec![Clause::LastDuration(Duration { amount, unit })];
    assert_eq!(clauses("last 30m"), last(30, DurationUnit::Minutes));
    assert_eq!(clauses("LAST 2h"), last(2, DurationUnit::Hours));
    assert_eq!(clauses("last 7 d"), last(7, DurationUnit::Days));
    assert_eq!(clauses("since 2024-01-01"), vec![Clause::SinceDatetime("2024-01-01".to_string())]);
    assert_eq!(
        clauses("Since 2024-01-01T10:00:00Z"),
        vec![Clause::SinceDatetime("2024-01-01T10:00:00Z".to_string())]
    );
    assert_eq!(
        clauses("since \"2024-01-01 10:00:00\""),
        vec![Clause::SinceDatetime("2024-01-01 10:00:00".to_string())]
    );
    assert_eq!(DurationUnit::Minutes.seconds(), 60);
    assert_eq!(DurationUnit::Hours.seconds(), 3_600);
    assert_eq!(DurationUnit::Days.seconds(), 86_400);
}

#[test]
fn time_ranges_need_no_and() {
    let expected = vec![
        compare("level", CompareOp::Eq, text("error")),
        compare("service", CompareOp::Eq, text("payments")),
        Clause::LastDuration(Duration { amount: 2, unit: DurationUnit::Hours }),
    ];
    assert_eq!(clauses("level=error AND service=payments last 2h"), expected);
    assert_eq!(clauses("level=error AND service=payments AND last 2h"), expected);
    assert_eq!(clauses("tag=nginx AND status > 499 since 2026-04-15").len(), 3);
}

#[test]
fn conjunctions_are_read_in_any_case() {
    let expected = clauses("a=1 AND b=2");
    assert_eq!(clauses("a=1 and b=2"), expected);
    assert_eq!(clauses("a=1 AnD b=2"), expected);
    assert_eq!(clauses("a CONTAINS x"), clauses("a contains x"));
}

#[test]
fn each_kind_of_fault() {
    assert_eq!(fault(""), (QueryErrorKind::Empty, 0));
    assert_eq!(fault("  "), (QueryErrorKind::Empty, 0));
    assert_eq!(fault("a=(1)"), (QueryErrorKind::UnexpectedCharacter, 2));
    assert_eq!(fault("a!b"), (QueryErrorKind::UnexpectedCharacter, 1));
    assert_eq!(fault("a=\"x"), (QueryErrorKind::UnterminatedString, 2));
    assert_eq!(fault("=1"), (QueryErrorKind::ExpectedField, 0));
    assert_eq!(fault("a=1 AND"), (QueryErrorKind::ExpectedField, 7));
    assert_eq!(fault("and a=1"), (QueryErrorKind::ExpectedField, 0));
    assert_eq!(fault("a-b=1"), (QueryErrorKind::InvalidFieldName, 0));
    assert_eq!(fault("level"), (QueryErrorKind::ExpectedOperator, 5));
    assert_eq!(fault("level error"), (QueryErrorKind::ExpectedOperator, 6));
    assert_eq!(fault("level="), (QueryErrorKind::ExpectedValue, 6));
    assert_eq!(fault("level=AND"), (QueryErrorKind::ExpectedValue, 6));
    assert_eq!(fault("a contains 5"), (QueryErrorKind::ExpectedValue, 11));
    assert_eq!(fault("a=9223372036854775808"), (QueryErrorKind::IntegerOutOfRange, 2));
    assert_eq!(fault("last 18446744073709551616m"), (QueryErrorKind::IntegerOutOfRange, 5));
    assert_eq!(fault("last"), (QueryErrorKind::ExpectedDuration, 4));
    assert_eq!(fault("last -2h"), (QueryErrorKind::ExpectedDuration, 5));
    assert_eq!(fault("last 1.5h"), (QueryErrorKind::ExpectedDuration, 5));
    assert_eq!(fault("last 2w"), (QueryErrorKind::ExpectedDurationUnit, 6));
    assert_eq!(fault("last 2"), (QueryErrorKind::ExpectedDurationUnit, 6));
    assert_eq!(fault("since"), (QueryErrorKind::ExpectedDatetime, 5));
    assert_eq!(fault("since and"), (QueryErrorKind::ExpectedDatetime, 6));
    assert_eq!(fault("a=1 b=2"), (QueryErrorKind::ExpectedAnd, 4));
    assert_eq!(fault("version=3beta"), (QueryErrorKind::ExpectedAnd, 9));
    assert_eq!(fault("a=1 OR b=2"), (QueryErrorKind::OrNotSupported, 4));
}

#[test]
fn faults_are_found_at_a_byte() {
    assert_eq!(fault("a=\"é€😀\" ?"), (QueryErrorKind::UnexpectedCharacter, 14));
    assert_eq!(fault("größe=1"), (QueryErrorKind::InvalidFieldName, 0));
}

#[test]
fn messages_say_what_and_where() {
    let message = |q: &str| parse_query(q).unwrap_err().message();
    assert_eq!(message(""), "the query is empty at byte 0");
    assert_eq!(message("last 2w"), "expected a unit: m, h or d at byte 6");
    assert!(message("a=1 OR b=2").contains("v2"));
}

#[test]
fn tokens_of_a_query() {
    let chars: Vec<char> = "last 30m x=2024-01-01".chars().collect();
    let tokens = tokenize(&chars).unwrap();
    assert_eq!(tokens.len(), 6);
    assert!(matches!(&tokens[0].kind, TokenKind::Word(w) if w == "last"));
    assert!(matches!(&tokens[1].kind, TokenKind::Number(n) if n == "30"));
    assert!(matches!(&tokens[2].kind, TokenKind::Word(w) if w == "m"));
    assert!(matches!(&tokens[4].kind, TokenKind::Op(CompareOp::Eq)));
    assert!(matches!(&tokens[5].kind, TokenKind::Word(w) if w == "2024-01-01"));
    assert_eq!(tokens[5].at, 11);
}

#[test]
fn operators_as_they_are_written() {
    assert_eq!(CompareOp::Eq.symbol(), "=");
    assert_eq!(CompareOp::NotEq.symbol(), "!=");
    assert_eq!(CompareOp::Gt.symbol(), ">");
    assert_eq!(CompareOp::Lt.symbol(), "<");
}
