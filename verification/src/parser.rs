//! Line-by-line reading of structured JSON logs.
//!
//! A line is an entry when it is a JSON object, and is passed over otherwise. The known keys
//! (`timestamp`, `level`, `message`, `tag`) are lifted into the entry's own fields; every other
//! member stays in `fields`.
use crate::entry;
use crate::entry::{EntryModel, LogEntry};
use crate::json;
use crate::json::{Json, Shape};
use crate::text;
use crate::text::{is_blank, same_text};
use serde_json::{Map as JsonMap, Value};
use vstd::prelude::*;

verus! {

/// The text of a scalar. Arrays and objects have none.
pub open spec fn scalar_text(json: Json) -> Option<Seq<char>> {
    match json {
        Json::Null => Some("null"@),
        Json::Bool(true) => Some("true"@),
        Json::Bool(false) => Some("false"@),
        Json::Number(t) => Some(t),
        Json::Text(t) => Some(t),
        Json::Array(_) => None,
        Json::Object(_) => None,
    }
}

/// Whether a member is lifted out of the object: a known key with a scalar value.
pub open spec fn is_lifted(name: Seq<char>, json: Json) -> bool {
    entry::known_key(name) && scalar_text(json) is Some
}

/// The text of a known field, where the object has it as a scalar.
pub open spec fn lifted(members: Map<Seq<char>, Json>, name: Seq<char>) -> Option<Seq<char>> {
    if members.dom().contains(name) {
        scalar_text(members[name])
    } else {
        None
    }
}

/// The members that are not lifted.
pub open spec fn left_over(members: Map<Seq<char>, Json>) -> Map<Seq<char>, Json> {
    Map::new(
        |k: Seq<char>| members.dom().contains(k) && !is_lifted(k, members[k]),
        |k: Seq<char>| members[k],
    )
}

/// The entry of a line that holds the given members.
pub open spec fn entry_of(line: Seq<char>, members: Map<Seq<char>, Json>) -> EntryModel {
    EntryModel {
        timestamp: lifted(members, "timestamp"@),
        level: lifted(members, "level"@),
        message: lifted(members, "message"@),
        tag: lifted(members, "tag"@),
        fields: left_over(members),
        raw: line,
    }
}

/// The entry of a line that reads as `json`: an object has one, nothing else does.
pub open spec fn entry_of_json(line: Seq<char>, json: Json) -> Option<EntryModel> {
    match json {
        Json::Object(members) => Some(entry_of(line, members)),
        _ => None,
    }
}

/// The entry of a line, if it is one: a line that is not blank and reads as a JSON object.
pub open spec fn entry_of_line(line: Seq<char>) -> Option<EntryModel> {
    if text::blank(line) {
        None
    } else {
        match json::json_read(line) {
            Some(json) => entry_of_json(line, json),
            None => None,
        }
    }
}

/// What an optional entry says.
pub open spec fn entry_view(e: Option<LogEntry>) -> Option<EntryModel> {
    match e {
        None => None,
        Some(e) => Some(e@),
    }
}

/// The known keys are four different names.
pub proof fn known_keys_differ()
    ensures
        "timestamp"@ != "level"@,
        "timestamp"@ != "message"@,
        "timestamp"@ != "tag"@,
        "level"@ != "message"@,
        "level"@ != "tag"@,
        "message"@ != "tag"@,
{
    reveal_strlit("timestamp");
    reveal_strlit("level");
    reveal_strlit("message");
    reveal_strlit("tag");
    assert("level"@.len() == 5);
    assert("message"@.len() == 7);
    assert("tag"@.len() == 3);
}

/// No member of a line is lost and none appears twice: each is either one of the known fields,
/// as its text, or unchanged among `fields`.
pub proof fn every_member_is_kept_once(
    line: Seq<char>,
    members: Map<Seq<char>, Json>,
    name: Seq<char>,
)
    requires
        members.dom().contains(name),
    ensures
        is_lifted(name, members[name]) ==> !entry_of(line, members).fields.dom().contains(name),
        !is_lifted(name, members[name]) ==> entry_of(line, members).fields.contains_pair(
            name,
            members[name],
        ),
        name == "timestamp"@ ==> entry_of(line, members).timestamp == scalar_text(members[name]),
        name == "level"@ ==> entry_of(line, members).level == scalar_text(members[name]),
        name == "message"@ ==> entry_of(line, members).message == scalar_text(members[name]),
        name == "tag"@ ==> entry_of(line, members).tag == scalar_text(members[name]),
{
}

/// A member that is none of the four known fields is in `fields` with its value unchanged, whatever
/// kind of value that is, and `fields` has no other member but those.
pub proof fn other_members_stay(
    line: Seq<char>,
    members: Map<Seq<char>, Json>,
    name: Seq<char>,
)
    requires
        name != "timestamp"@,
        name != "level"@,
        name != "message"@,
        name != "tag"@,
    ensures
        ({
            let fields = entry_of(line, members).fields;
            &&& fields.dom().contains(name) <==> members.dom().contains(name)
            &&& members.dom().contains(name) ==> fields[name] == members[name]
        }),
{
}

/// What an entry has of a known field, given its value in the line: a text as it is, a number as it
/// is written, `true`, `false` or `null`. An array or an object is not lifted.
pub open spec fn lifts(value: Json, known: Option<Seq<char>>) -> bool {
    match value {
        Json::Text(t) => known == Some(t),
        Json::Number(t) => known == Some(t),
        Json::Bool(b) => known == Some(
            if b {
                "true"@
            } else {
                "false"@
            },
        ),
        Json::Null => known == Some("null"@),
        Json::Array(_) => known is None,
        Json::Object(_) => known is None,
    }
}

/// Each of the four known fields is lifted out of the line where it is a scalar. One that the line
/// does not have is absent. The line itself is kept.
pub proof fn known_members_are_lifted(line: Seq<char>, members: Map<Seq<char>, Json>)
    ensures
        ({
            let e = entry_of(line, members);
            &&& members.dom().contains("timestamp"@) ==> lifts(
                members["timestamp"@],
                e.timestamp,
            )
            &&& members.dom().contains("level"@) ==> lifts(members["level"@], e.level)
            &&& members.dom().contains("message"@) ==> lifts(members["message"@], e.message)
            &&& members.dom().contains("tag"@) ==> lifts(members["tag"@], e.tag)
            &&& !members.dom().contains("timestamp"@) ==> e.timestamp is None
            &&& !members.dom().contains("level"@) ==> e.level is None
            &&& !members.dom().contains("message"@) ==> e.message is None
            &&& !members.dom().contains("tag"@) ==> e.tag is None
            &&& e.raw == line
        }),
{
}

/// Of the four known fields, `fields` has those that are arrays or objects, unchanged.
pub proof fn lifted_members_leave(
    line: Seq<char>,
    members: Map<Seq<char>, Json>,
    name: Seq<char>,
)
    requires
        name == "timestamp"@ || name == "level"@ || name == "message"@ || name == "tag"@,
    ensures
        ({
            let fields = entry_of(line, members).fields;
            &&& fields.dom().contains(name) <==> members.dom().contains(name) && (
            members[name] is Array || members[name] is Object)
            &&& fields.dom().contains(name) ==> fields[name] == members[name]
        }),
{
}

/// A line is an entry exactly where something but white space is in it and it reads as an object;
/// the entry is then that of the object's members, and keeps the line as it is.
pub proof fn objects_are_entries(line: Seq<char>)
    ensures
        entry_of_line(line) is Some <==> !text::blank(line) && (json::json_read(line) matches Some(
            json,
        ) && json is Object),
        entry_of_line(line) matches Some(e) ==> e.raw == line && e == entry_of(
            line,
            json::json_read(line)->0->Object_0,
        ),
{
}

/// The text of a scalar, as a known field stores it. An array or an object has none.
pub fn coerce_scalar_to_string(value: &Value) -> (r: Option<String>)
    ensures
        json::text_view(r) == scalar_text(json::json_of(*value)),
{
    match json::shape_of(value) {
        Shape::Null => Some("null".to_owned()),
        Shape::Bool(b) => {
            if b {
                Some("true".to_owned())
            } else {
                Some("false".to_owned())
            }
        },
        Shape::Number(t) => Some(t),
        Shape::Text(t) => Some(t),
        Shape::Array => None,
        Shape::Object => None,
    }
}

/// The entry of a line whose members are known.
pub fn entry_from_members(line: &str, members: JsonMap<String, Value>) -> (r: LogEntry)
    ensures
        r@ == entry_of(line@, json::members_of(members)),
{
    let ghost all = json::members_of(members);
    let mut list = json::list_members(members);
    let ghost listing = list@;
    let mut entry = LogEntry::new(line);
    let ghost mut seen: Map<Seq<char>, Json> = Map::empty();
    proof {
        known_keys_differ();
    }
    while list.len() > 0
        invariant
            "timestamp"@ != "level"@,
            "timestamp"@ != "message"@,
            "timestamp"@ != "tag"@,
            "level"@ != "message"@,
            "level"@ != "tag"@,
            "message"@ != "tag"@,
            json::listed(listing, all),
            list@.len() <= listing.len(),
            list@ == listing.take(list@.len() as int),
            entry@ == entry_of(line@, seen),
            forall|k: Seq<char>| #[trigger]
                seen.dom().contains(k) <==> exists|i: int|
                    list@.len() <= i < listing.len() && (#[trigger] listing[i]).0@ == k,
            forall|k: Seq<char>| #[trigger] seen.dom().contains(k) ==> seen[k] == all[k],
        decreases list@.len(),
    {
        let ghost before = seen;
        let (key, value) = list.pop().unwrap();
        let ghost name = key@;
        let ghost json = json::json_of(value);
        proof {
            seen = before.insert(name, json);
        }
        let coerced = coerce_scalar_to_string(&value);
        if same_text(key.as_str(), "timestamp") && coerced.is_some() {
            entry.timestamp = coerced;
        } else if same_text(key.as_str(), "level") && coerced.is_some() {
            entry.level = coerced;
        } else if same_text(key.as_str(), "message") && coerced.is_some() {
            entry.message = coerced;
        } else if same_text(key.as_str(), "tag") && coerced.is_some() {
            entry.tag = coerced;
        } else {
            json::insert_member(&mut entry.fields, key, value);
        }
        proof {
            assert forall|k: Seq<char>| #[trigger] seen.dom().contains(k) <==> exists|i: int|
                list@.len() <= i < listing.len() && (#[trigger] listing[i]).0@ == k by {}
        }
    }
    assert(seen =~= all);
    entry
}

/// The entry of a line that was read as `value`, if it is an object.
pub fn entry_from_value(line: &str, value: Value) -> (r: Option<LogEntry>)
    ensures
        entry_view(r) == entry_of_json(line@, json::json_of(value)),
{
    match json::into_members(value) {
        Some(members) => Some(entry_from_members(line, members)),
        None => None,
    }
}

/// Read one line of input.
///
/// A blank line, a line that is not JSON and a line that is JSON but no object are no entries.
pub fn parse_line(line: &str) -> (r: Option<LogEntry>)
    ensures
        entry_view(r) == entry_of_line(line@),
{
    if is_blank(line) {
        return None;
    }
    match json::read_value(line) {
        Ok(value) => entry_from_value(line, value),
        Err(_) => None,
    }
}

} // verus!
