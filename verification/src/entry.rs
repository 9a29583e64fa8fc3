//! One log entry.
use crate::json;
use crate::json::Json;
use crate::text::same_text;
use serde_json::{Map as JsonMap, Value};
use vstd::prelude::*;

verus! {

/// One line of a structured log.
///
/// The four known fields stand on their own; every other member of the line is in `fields`.
#[derive(Debug, PartialEq)]
pub struct LogEntry {
    pub timestamp: Option<String>,
    pub level: Option<String>,
    pub message: Option<String>,
    pub tag: Option<String>,
    /// Every member that is not one of the known fields.
    pub fields: JsonMap<String, Value>,
    /// The line itself, character for character.
    pub raw: String,
}

/// What a [`LogEntry`] says.
#[verifier::ext_equal]
pub struct EntryModel {
    pub timestamp: Option<Seq<char>>,
    pub level: Option<Seq<char>>,
    pub message: Option<Seq<char>>,
    pub tag: Option<Seq<char>>,
    pub fields: Map<Seq<char>, Json>,
    pub raw: Seq<char>,
}

impl View for LogEntry {
    type V = EntryModel;

    open spec fn view(&self) -> EntryModel {
        EntryModel {
            timestamp: json::text_view(self.timestamp),
            level: json::text_view(self.level),
            message: json::text_view(self.message),
            tag: json::text_view(self.tag),
            fields: json::members_of(self.fields),
            raw: self.raw@,
        }
    }
}

/// The names of the known fields.
pub open spec fn known_key(name: Seq<char>) -> bool {
    name == "timestamp"@ || name == "level"@ || name == "message"@ || name == "tag"@
}

/// The entry of a line of which only the text is known.
pub open spec fn bare_entry(raw: Seq<char>) -> EntryModel {
    EntryModel {
        timestamp: None,
        level: None,
        message: None,
        tag: None,
        fields: Map::empty(),
        raw,
    }
}

/// An entry of which only the line is known has the line and nothing else.
pub proof fn bare_entries_have_their_line(raw: Seq<char>)
    ensures
        bare_entry(raw).raw == raw,
        bare_entry(raw).timestamp is None,
        bare_entry(raw).level is None,
        bare_entry(raw).message is None,
        bare_entry(raw).tag is None,
        bare_entry(raw).fields.dom() == Set::<Seq<char>>::empty(),
{
}

/// An entry that carries a tag of its own, as a known field or as a member that is no scalar.
pub open spec fn carries_tag(entry: EntryModel) -> bool {
    entry.tag is Some || entry.fields.dom().contains("tag"@)
}

/// The entry with `tag` attached, unless it carries a tag of its own or none is given.
pub open spec fn tagged(entry: EntryModel, tag: Option<Seq<char>>) -> EntryModel {
    if carries_tag(entry) {
        entry
    } else {
        EntryModel { tag, ..entry }
    }
}

/// Attaching a tag changes the tag of an entry that has none, of either kind, and nothing else of
/// any entry.
pub proof fn tagging_fills_in_the_tag(entry: EntryModel, tag: Option<Seq<char>>)
    ensures
        entry.tag is None && !entry.fields.dom().contains("tag"@) ==> tagged(entry, tag).tag == tag,
        entry.tag is Some || entry.fields.dom().contains("tag"@) ==> tagged(entry, tag).tag
            == entry.tag,
        tagged(entry, tag).timestamp == entry.timestamp,
        tagged(entry, tag).level == entry.level,
        tagged(entry, tag).message == entry.message,
        tagged(entry, tag).fields == entry.fields,
        tagged(entry, tag).raw == entry.raw,
{
}

/// Whether `name` is one of the known fields.
pub fn is_known_key(name: &str) -> (r: bool)
    ensures
        r == known_key(name@),
{
    same_text(name, "timestamp") || same_text(name, "level") || same_text(name, "message")
        || same_text(name, "tag")
}

impl Clone for LogEntry {
    fn clone(&self) -> (r: LogEntry)
        ensures
            r@ == self@,
    {
        LogEntry {
            timestamp: self.timestamp.clone(),
            level: self.level.clone(),
            message: self.message.clone(),
            tag: self.tag.clone(),
            fields: json::clone_members(&self.fields),
            raw: self.raw.clone(),
        }
    }
}

impl LogEntry {
    /// An entry that knows nothing but its line.
    pub fn new(raw: &str) -> (r: LogEntry)
        ensures
            r@ == bare_entry(raw@),
    {
        let fields = json::no_members();
        LogEntry {
            timestamp: None,
            level: None,
            message: None,
            tag: None,
            fields,
            raw: raw.to_owned(),
        }
    }

    /// Attach a tag to an entry that does not carry one.
    pub fn with_tag(self, tag: Option<String>) -> (r: LogEntry)
        ensures
            r@ == tagged(self@, json::text_view(tag)),
    {
        if self.tag.is_some() || json::has_member(&self.fields, "tag") {
            self
        } else {
            let mut entry = self;
            entry.tag = tag;
            entry
        }
    }
}

} // verus!
