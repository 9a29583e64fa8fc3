//! The query language: what a query is.
//!
//! ```text
//! query      := clause (AND clause | TIME_RANGE)*
//! clause     := field OP value
//!             | field CONTAINS string
//!             | TIME_RANGE
//! field      := [a-zA-Z_][a-zA-Z0-9_.]*
//! OP         := "=" | "!=" | ">" | "<"
//! value      := string | number | bool
//! string     := '"' .* '"' | bare_word
//! TIME_RANGE := "last" duration | "since" datetime
//! duration   := number ("m" | "h" | "d")
//! ```
//!
//! Keywords are recognised in any case. [`crate::query_parser`] turns text into a query.
use crate::text;
use crate::text::{chars_of, is_digit, is_letter};
use vstd::prelude::*;

verus! {

/// A comparison.
#[derive(Debug, Clone, Copy, PartialEq, Eq, Structural)]
pub enum CompareOp {
    Eq,
    NotEq,
    Gt,
    Lt,
}

/// How each comparison is written in a query.
pub open spec fn op_text(op: CompareOp) -> Seq<char> {
    match op {
        CompareOp::Eq => "="@,
        CompareOp::NotEq => "!="@,
        CompareOp::Gt => ">"@,
        CompareOp::Lt => "<"@,
    }
}

/// Each comparison is written with a sign of its own.
pub proof fn comparisons_have_their_signs()
    ensures
        op_text(CompareOp::Eq) == "="@,
        op_text(CompareOp::NotEq) == "!="@,
        op_text(CompareOp::Gt) == ">"@,
        op_text(CompareOp::Lt) == "<"@,
{
}

impl CompareOp {
    /// The operator as it is written.
    pub fn symbol(&self) -> (r: &'static str)
        ensures
            r@ == op_text(*self),
    {
        match self {
            CompareOp::Eq => "=",
            CompareOp::NotEq => "!=",
            CompareOp::Gt => ">",
            CompareOp::Lt => "<",
        }
    }
}

/// The unit of a duration.
#[derive(Debug, Clone, Copy, PartialEq, Eq, Structural)]
pub enum DurationUnit {
    Minutes,
    Hours,
    Days,
}

/// The seconds in one unit.
pub open spec fn unit_seconds(unit: DurationUnit) -> nat {
    match unit {
        DurationUnit::Minutes => 60,
        DurationUnit::Hours => 3_600,
        DurationUnit::Days => 86_400,
    }
}

impl DurationUnit {
    /// The seconds in one unit.
    pub fn seconds(&self) -> (r: i64)
        ensures
            r == unit_seconds(*self),
    {
        match self {
            DurationUnit::Minutes => 60,
            DurationUnit::Hours => 3_600,
            DurationUnit::Days => 86_400,
        }
    }
}

/// A length of time.
#[derive(Debug, Clone, Copy, PartialEq, Eq, Structural)]
pub struct Duration {
    pub amount: u64,
    pub unit: DurationUnit,
}

/// The seconds in a duration.
pub open spec fn duration_seconds(d: Duration) -> nat {
    d.amount as nat * unit_seconds(d.unit)
}

/// Digits, a point, and any further digits, with a sign in front if the number is negative.
pub open spec fn fraction_numeral(t: Seq<char>) -> bool {
    exists|k: int| #[trigger] point_at(unsigned(t), k)
}

/// Whether the point of an unsigned fraction stands at `k`.
pub open spec fn point_at(t: Seq<char>, k: int) -> bool {
    &&& 0 < k < t.len()
    &&& t[k] == '.'
    &&& text::all_digits(t.take(k))
    &&& text::all_digits(t.skip(k + 1))
}

/// A numeral without its sign.
pub open spec fn unsigned(t: Seq<char>) -> Seq<char> {
    if t.len() > 0 && t[0] == '-' {
        t.drop_first()
    } else {
        t
    }
}

/// A number with a fraction, as it is written.
#[derive(Debug, PartialEq, Eq)]
pub struct Fraction {
    numeral: String,
}

impl View for Fraction {
    type V = Seq<char>;

    closed spec fn view(&self) -> Seq<char> {
        self.numeral@
    }
}

impl Clone for Fraction {
    fn clone(&self) -> (r: Fraction)
        ensures
            r@ == self@,
    {
        proof {
            use_type_invariant(self);
        }
        Fraction { numeral: self.numeral.clone() }
    }
}

impl Fraction {
    #[verifier::type_invariant]
    spec fn valid(self) -> bool {
        fraction_numeral(self.numeral@)
    }

    /// The fraction that `numeral` writes, if it writes one.
    pub fn new(numeral: &str) -> (r: Option<Fraction>)
        ensures
            match r {
                Some(f) => fraction_numeral(numeral@) && f@ == numeral@,
                None => !fraction_numeral(numeral@),
            },
    {
        let chars = chars_of(numeral);
        let start: usize = if chars.len() > 0 && chars[0] == '-' {
            1
        } else {
            0
        };
        let ghost body = unsigned(numeral@);
        let mut k: usize = start;
        while k < chars.len() && is_digit(chars[k])
            invariant
                chars@ == numeral@,
                start <= k <= chars@.len(),
                forall|i: int| start <= i < k ==> text::digit(#[trigger] chars@[i]),
            decreases chars@.len() - k,
        {
            k = k + 1;
        }
        if k == start || k == chars.len() || chars[k] != '.' {
            proof {
                assert forall|j: int| !point_at(body, j) by {
                    if point_at(body, j) {
                        no_other_point(body, k - start, j);
                    }
                }
            }
            return None;
        }
        let mut end: usize = k + 1;
        while end < chars.len() && is_digit(chars[end])
            invariant
                start < k < end <= chars@.len(),
                forall|i: int| k < i < end ==> text::digit(#[trigger] chars@[i]),
            decreases chars@.len() - end,
        {
            end = end + 1;
        }
        if end < chars.len() {
            proof {
                assert forall|j: int| !point_at(body, j) by {
                    if point_at(body, j) {
                        no_other_point(body, k - start, j);
                        assert(body.skip(j + 1)[end - k - 1] == chars@[end as int]);
                    }
                }
            }
            return None;
        }
        proof {
            assert(point_at(body, k - start));
        }
        Some(Fraction { numeral: numeral.to_owned() })
    }

    /// The number as it is written.
    pub fn numeral(&self) -> (r: &str)
        ensures
            r@ == self@,
            fraction_numeral(r@),
    {
        proof {
            use_type_invariant(self);
        }
        self.numeral.as_str()
    }
}

/// Where digits stop at `k` and not at a point, nothing else is the point of a fraction.
proof fn no_other_point(t: Seq<char>, k: int, j: int)
    requires
        0 <= k <= t.len(),
        forall|i: int| 0 <= i < k ==> text::digit(#[trigger] t[i]),
        k < t.len() ==> !text::digit(t[k]),
        point_at(t, j),
    ensures
        j == k,
{
    if j > k {
        assert(t.take(j)[k] == t[k]);
    }
}

/// The right-hand side of a comparison.
#[derive(Debug, PartialEq, Eq)]
pub enum QueryValue {
    String(String),
    Integer(i64),
    Float(Fraction),
    Bool(bool),
}

/// What a [`QueryValue`] says.
pub enum ValueModel {
    Text(Seq<char>),
    Integer(int),
    Float(Seq<char>),
    Bool(bool),
}

impl View for QueryValue {
    type V = ValueModel;

    open spec fn view(&self) -> ValueModel {
        match self {
            QueryValue::String(s) => ValueModel::Text(s@),
            QueryValue::Integer(n) => ValueModel::Integer(*n as int),
            QueryValue::Float(f) => ValueModel::Float(f@),
            QueryValue::Bool(b) => ValueModel::Bool(*b),
        }
    }
}

/// One condition of a query.
#[derive(Debug, PartialEq, Eq)]
#[allow(inconsistent_fields)]
pub enum Clause {
    /// The field compares so with the value.
    Compare { field: String, op: CompareOp, value: QueryValue },
    /// The field's text contains the value.
    Contains { field: String, value: String },
    /// The entry is no older than this.
    LastDuration(Duration),
    /// The entry is no older than the datetime that the text denotes.
    SinceDatetime(String),
}

/// What a [`Clause`] says.
#[allow(inconsistent_fields)]
pub enum ClauseModel {
    Compare { field: Seq<char>, op: CompareOp, value: ValueModel },
    Contains { field: Seq<char>, value: Seq<char> },
    LastDuration(Duration),
    SinceDatetime(Seq<char>),
}

impl View for Clause {
    type V = ClauseModel;

    open spec fn view(&self) -> ClauseModel {
        match self {
            Clause::Compare { field, op, value } => ClauseModel::Compare {
                field: field@,
                op: *op,
                value: value@,
            },
            Clause::Contains { field, value } => ClauseModel::Contains {
                field: field@,
                value: value@,
            },
            Clause::LastDuration(d) => ClauseModel::LastDuration(*d),
            Clause::SinceDatetime(s) => ClauseModel::SinceDatetime(s@),
        }
    }
}

/// A query: every condition must hold.
#[derive(Debug, PartialEq, Eq)]
pub enum QueryNode {
    And(Vec<Clause>),
}

/// What a list of clauses says.
pub open spec fn clause_models(clauses: Seq<Clause>) -> Seq<ClauseModel> {
    clauses.map_values(|c: Clause| c@)
}

impl View for QueryNode {
    type V = Seq<ClauseModel>;

    open spec fn view(&self) -> Seq<ClauseModel> {
        match self {
            QueryNode::And(clauses) => clause_models(clauses@),
        }
    }
}

/// The names that a field may have: `[a-zA-Z_][a-zA-Z0-9_.]*`.
pub open spec fn field_name(s: Seq<char>) -> bool {
    &&& s.len() > 0
    &&& text::letter(s[0]) || s[0] == '_'
    &&& forall|i: int| 0 <= i < s.len() ==> field_char(#[trigger] s[i])
}

/// The characters of field names.
pub open spec fn field_char(c: char) -> bool {
    text::letter(c) || text::digit(c) || c == '_' || c == '.'
}

/// Whether a field may have this name.
pub fn is_field_name(s: &str) -> (r: bool)
    ensures
        r == field_name(s@),
{
    let chars = chars_of(s);
    if chars.len() == 0 || !(is_letter(chars[0]) || chars[0] == '_') {
        return false;
    }
    let mut i: usize = 0;
    while i < chars.len()
        invariant
            i <= chars@.len(),
            chars@ == s@,
            forall|j: int| 0 <= j < i ==> field_char(#[trigger] s@[j]),
        decreases chars@.len() - i,
    {
        let c = chars[i];
        if !(is_letter(c) || is_digit(c) || c == '_' || c == '.') {
            return false;
        }
        i = i + 1;
    }
    true
}

/// The field that a clause speaks of, if it names one.
pub open spec fn clause_field(clause: ClauseModel) -> Option<Seq<char>> {
    match clause {
        ClauseModel::Compare { field, .. } => Some(field),
        ClauseModel::Contains { field, .. } => Some(field),
        ClauseModel::LastDuration(_) => None,
        ClauseModel::SinceDatetime(_) => None,
    }
}

} // verus!
