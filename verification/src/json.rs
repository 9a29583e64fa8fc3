//! JSON values: their model, and the calls into `serde_json`.
//!
//! A `serde_json::Value` is opaque here. [`Json`] is the tree that it stands for, and every
//! statement about a value is a statement about that tree.
use serde_json::{Map as JsonMap, Value};
use vstd::prelude::*;

verus! {

/// The tree that a JSON value stands for.
///
/// A number is represented by the text that `serde_json` prints for it, so that integers and
/// fractions need no arithmetic of their own.
pub enum Json {
    Null,
    Bool(bool),
    Number(Seq<char>),
    Text(Seq<char>),
    Array(Seq<Json>),
    Object(Map<Seq<char>, Json>),
}

/// What a JSON value is at its top, with the content of a scalar.
#[derive(Debug)]
pub enum Shape {
    Null,
    Bool(bool),
    /// A number, as the text that `serde_json` prints for it.
    Number(String),
    Text(String),
    Array,
    Object,
}

impl Shape {
    /// Whether this is the top of `json`.
    pub open spec fn is_top_of(self, json: Json) -> bool {
        match self {
            Shape::Null => json == Json::Null,
            Shape::Bool(b) => json == Json::Bool(b),
            Shape::Number(t) => json == Json::Number(t@),
            Shape::Text(t) => json == Json::Text(t@),
            Shape::Array => json is Array,
            Shape::Object => json is Object,
        }
    }
}

/// An absent text is `null`.
pub open spec fn optional_text(t: Option<Seq<char>>) -> Json {
    match t {
        None => Json::Null,
        Some(t) => Json::Text(t),
    }
}

/// The decimal form of an integer: it has neither a fraction nor an exponent.
pub open spec fn integer_numeral(t: Seq<char>) -> bool {
    !t.contains('.') && !t.contains('e') && !t.contains('E')
}

/// The names that `serde_json` keeps for itself: a value that is an object with such a member is
/// not read as an object.
pub open spec fn reserved(name: Seq<char>) -> bool {
    name == "$serde_json::private::RawValue"@ || name == "$serde_json::private::Number"@
}

/// A tree of at most `depth` levels of arrays and objects in which every number is an integer and
/// no member has a reserved name.
///
/// These are the values that come back unchanged from their own printed text: a fraction may
/// differ in its last digit, text nested more deeply than the reader's limit is refused, and an
/// object that is printed with a reserved name in front is read as something else.
pub open spec fn reads_back(json: Json, depth: nat) -> bool
    decreases depth,
{
    match json {
        Json::Null => true,
        Json::Bool(_) => true,
        Json::Number(t) => integer_numeral(t),
        Json::Text(_) => true,
        Json::Array(items) => depth > 0 && forall|i: int|
            0 <= i < items.len() ==> reads_back(#[trigger] items[i], (depth - 1) as nat),
        Json::Object(members) => depth > 0 && forall|k: Seq<char>|
            members.dom().contains(k) ==> !reserved(k) && reads_back(
                #[trigger] members[k],
                (depth - 1) as nat,
            ),
    }
}

/// Members that come back unchanged from the printed text of an object: each is a value that does.
/// The object itself is read member by member, and may use any names.
pub open spec fn members_read_back(members: Map<Seq<char>, Json>, depth: nat) -> bool {
    depth > 0 && forall|k: Seq<char>|
        members.dom().contains(k) ==> reads_back(#[trigger] members[k], (depth - 1) as nat)
}

/// The levels of nesting that `serde_json` reads.
pub const MAX_NESTING: u64 = 127;

// ---------------------------------------------------------------------------
// Outside types, and what their values hold
// ---------------------------------------------------------------------------

/// `serde_json::Value`, any JSON value.
#[verifier::external_type_specification]
#[verifier::external_body]
pub struct ExValue(Value);

/// `serde_json::Map`, the members of a JSON object.
#[verifier::external_type_specification]
#[verifier::external_body]
#[verifier::reject_recursive_types(K)]
#[verifier::reject_recursive_types(V)]
pub struct ExMap<K, V>(JsonMap<K, V>);

/// `serde_json::Error`, why a text is not JSON.
#[verifier::external_type_specification]
#[verifier::external_body]
pub struct ExJsonError(serde_json::Error);

/// The tree that a value holds.
pub uninterp spec fn json_of(value: Value) -> Json;

/// The members that an object holds, by name.
pub uninterp spec fn members_of(members: JsonMap<String, Value>) -> Map<Seq<char>, Json>;

/// The tree that a text denotes to `serde_json`, if it is JSON.
pub uninterp spec fn json_read(text: Seq<char>) -> Option<Json>;

/// The members that a text denotes to `serde_json`, if it is a JSON object.
pub uninterp spec fn members_read(text: Seq<char>) -> Option<Map<Seq<char>, Json>>;

/// Whether a text was refused as an object, for this reason.
pub uninterp spec fn members_refused(text: Seq<char>, e: serde_json::Error) -> bool;

/// The compact text that `serde_json` prints for an object.
pub uninterp spec fn members_printed(members: Map<Seq<char>, Json>) -> Seq<char>;

/// The compact text that `serde_json` prints for a value.
pub uninterp spec fn value_printed(json: Json) -> Seq<char>;

// ---------------------------------------------------------------------------
// Calls
// ---------------------------------------------------------------------------

/// `serde_json::from_str` for any value: the text is read as [`json_read`] says, and refused
/// where that is nothing.
#[verifier::external_body]
pub(crate) fn read_value(text: &str) -> (r: Result<Value, serde_json::Error>)
    ensures
        match r {
            Ok(value) => json_read(text@) == Some(json_of(value)),
            Err(_) => json_read(text@) is None,
        },
{
    serde_json::from_str(text)
}

/// `serde_json::from_str` for an object: the text is read as [`members_read`] says, and refused
/// where that is nothing, with an error in [`members_refused`].
#[verifier::external_body]
pub(crate) fn read_members(text: &str) -> (r: Result<JsonMap<String, Value>, serde_json::Error>)
    ensures
        match r {
            Ok(members) => members_read(text@) == Some(members_of(members)),
            Err(e) => members_read(text@) is None && members_refused(text@, e),
        },
{
    serde_json::from_str(text)
}

/// `serde_json::to_string` of an object, which never fails: every member has a printed form.
///
/// The text is [`members_printed`], all on one line: there is no white space between tokens, and
/// control characters inside strings are escaped. Where every number is an integer, the nesting is
/// within the reader's limit and no object inside has a member with a reserved name,
/// `serde_json::from_str` reads the same members back from it.
#[verifier::external_body]
pub(crate) fn print_members(members: &JsonMap<String, Value>) -> (r: String)
    ensures
        r@ == members_printed(members_of(*members)),
        !r@.contains('\n'),
        members_read_back(members_of(*members), MAX_NESTING as nat) ==> members_read(r@) == Some(
            members_of(*members),
        ),
{
    serde_json::to_string(members).expect("an object of JSON values always has a text")
}

/// `serde_json::to_string` of a value, which never fails: every value has a printed form. The text
/// is [`value_printed`].
#[verifier::external_body]
pub(crate) fn print_value(value: &Value) -> (r: String)
    ensures
        r@ == value_printed(json_of(*value)),
{
    serde_json::to_string(value).expect("a JSON value always has a text")
}

/// The variant of a `serde_json::Value`, with the content of a scalar.
#[verifier::external_body]
pub(crate) fn shape_of(value: &Value) -> (r: Shape)
    ensures
        r.is_top_of(json_of(*value)),
{
    match value {
        Value::Null => Shape::Null,
        Value::Bool(b) => Shape::Bool(*b),
        Value::Number(n) => Shape::Number(n.to_string()),
        Value::String(s) => Shape::Text(s.clone()),
        Value::Array(_) => Shape::Array,
        Value::Object(_) => Shape::Object,
    }
}

/// The members of a `serde_json::Value::Object`, and nothing of any other value.
#[verifier::external_body]
pub(crate) fn into_members(value: Value) -> (r: Option<JsonMap<String, Value>>)
    ensures
        match r {
            Some(members) => json_of(value) == Json::Object(members_of(members)),
            None => !(json_of(value) is Object),
        },
{
    match value {
        Value::Object(members) => Some(members),
        Value::Null => None,
        Value::Bool(_) => None,
        Value::Number(_) => None,
        Value::String(_) => None,
        Value::Array(_) => None,
    }
}

/// `serde_json::Value::Object` around the given members.
#[verifier::external_body]
pub(crate) fn object_value(members: JsonMap<String, Value>) -> (r: Value)
    ensures
        json_of(r) == Json::Object(members_of(members)),
{
    Value::Object(members)
}

/// `serde_json::Value::from` an optional text: a JSON string, or `null` where it is absent.
#[verifier::external_body]
pub(crate) fn text_value(text: Option<String>) -> (r: Value)
    ensures
        json_of(r) == optional_text(text_view(text)),
{
    Value::from(text)
}

/// The trees that a list of values holds.
pub open spec fn jsons_of(values: Seq<Value>) -> Seq<Json> {
    values.map_values(|v: Value| json_of(v))
}

/// `serde_json::Value::Array` around the given values.
#[verifier::external_body]
pub(crate) fn array_value(values: Vec<Value>) -> (r: Value)
    ensures
        json_of(r) == Json::Array(jsons_of(values@)),
{
    Value::Array(values)
}

/// `serde_json::Map::new`: no members.
#[verifier::external_body]
pub(crate) fn no_members() -> (r: JsonMap<String, Value>)
    ensures
        members_of(r).dom() == Set::<Seq<char>>::empty(),
{
    JsonMap::new()
}

/// `serde_json::Map::insert`: the member is there afterwards, in place of one with its name.
#[verifier::external_body]
pub(crate) fn insert_member(members: &mut JsonMap<String, Value>, name: String, value: Value)
    ensures
        members_of(*final(members)) == members_of(*old(members)).insert(name@, json_of(value)),
{
    members.insert(name, value);
}

/// `serde_json::Map::contains_key`.
#[verifier::external_body]
pub(crate) fn has_member(members: &JsonMap<String, Value>, name: &str) -> (r: bool)
    ensures
        r == members_of(*members).dom().contains(name@),
{
    members.contains_key(name)
}

/// `Clone` of a `serde_json::Map`: the same members.
#[verifier::external_body]
pub(crate) fn clone_members(members: &JsonMap<String, Value>) -> (r: JsonMap<String, Value>)
    ensures
        members_of(r) == members_of(*members),
{
    members.clone()
}

/// `IntoIterator` of a `serde_json::Map`: every member is handed out once, under its name.
#[verifier::external_body]
pub(crate) fn list_members(members: JsonMap<String, Value>) -> (r: Vec<(String, Value)>)
    ensures
        listed(r@, members_of(members)),
{
    members.into_iter().collect()
}

/// Whether a list holds exactly the given members, each once.
pub open spec fn listed(list: Seq<(String, Value)>, members: Map<Seq<char>, Json>) -> bool {
    &&& forall|i: int|
        0 <= i < list.len() ==> members.contains_pair(
            (#[trigger] list[i]).0@,
            json_of(list[i].1),
        )
    &&& forall|k: Seq<char>| #[trigger]
        members.dom().contains(k) ==> exists|i: int|
            0 <= i < list.len() && (#[trigger] list[i]).0@ == k
    &&& forall|i: int, j: int|
        0 <= i < j < list.len() ==> (#[trigger] list[i]).0@ != (#[trigger] list[j]).0@
}

/// The characters of an optional text.
pub open spec fn text_view(t: Option<String>) -> Option<Seq<char>> {
    match t {
        None => None,
        Some(t) => Some(t@),
    }
}

} // verus!
