//! The JSON text of a log: one object per entry, held in the `entries` array
//! of a single document, written without any white space.
//!
//! Numbers and the fixed parts of the document are written here. String
//! values are escaped and quoted by `serde_json`.

use crate::entry::LogEntry;
use crate::text::{decimal, push_decimal};
use vstd::prelude::*;
use vstd::string::*;

verus! {

/// What `serde_json::to_string` returns for a string value with the
/// characters `value`: the JSON string literal, or `None` where it reports an
/// error.
pub uninterp spec fn json_string_text(value: Seq<char>) -> Option<Seq<char>>;

/// Calls `serde_json::to_string` on a string slice. The call writes the
/// value as a JSON string literal, quotes included; the contract claims only
/// that its outcome is the one that `json_string_text` names for these
/// characters, with an error reported as `None`.
#[verifier::external_body]
fn json_string(value: &str) -> (literal: Option<String>)
    ensures
        literal matches Some(text) ==> json_string_text(value@) == Some(text@),
        literal is None ==> json_string_text(value@) is None,
{
    serde_json::to_string(value).ok()
}

/// The object that stands for `entry` in a document, given the JSON string
/// literals of its file and of its message.
pub open spec fn entry_object(entry: LogEntry, file: Seq<char>, message: Seq<char>) -> Seq<char> {
    "{\"timestamp\":"@ + decimal(entry.timestamp as nat) + ",\"priority\":\""@
        + entry.priority.name() + "\",\"file\":"@ + file + ",\"line\":"@ + decimal(
        entry.line as nat,
    ) + ",\"message\":"@ + message + ",\"counter\":"@ + decimal(entry.counter as nat) + "}"@
}

/// The object that stands for `entry` in a document, or `None` where one of
/// its strings cannot be written.
pub open spec fn entry_text(entry: LogEntry) -> Option<Seq<char>> {
    match (json_string_text(entry.file@), json_string_text(entry.message@)) {
        (Some(file), Some(message)) => Some(entry_object(entry, file, message)),
        _ => None,
    }
}

/// Whether every entry can be written as an object.
pub open spec fn all_encodable(entries: Seq<LogEntry>) -> bool {
    forall|i: int| 0 <= i < entries.len() ==> (#[trigger] entry_text(entries[i])) is Some
}

/// The objects of `entries`, one for each entry and in their order.
pub open spec fn entry_texts(entries: Seq<LogEntry>) -> Seq<Seq<char>>
    recommends
        all_encodable(entries),
{
    Seq::new(entries.len(), |i: int| entry_text(entries[i]).unwrap())
}

/// The objects separated by commas.
pub open spec fn joined(objects: Seq<Seq<char>>) -> Seq<char>
    decreases objects.len(),
{
    if objects.len() == 0 {
        Seq::empty()
    } else if objects.len() == 1 {
        objects[0]
    } else {
        joined(objects.drop_last()) + ","@ + objects.last()
    }
}

/// The document that holds `objects` as its entries.
pub open spec fn document(objects: Seq<Seq<char>>) -> Seq<char> {
    "{\"entries\":["@ + joined(objects) + "]}"@
}

/// Writes the object of `entry`, given the JSON string literals of its file
/// and of its message.
pub fn entry_json(entry: &LogEntry, file_json: &str, message_json: &str) -> (out: String)
    ensures
        out@ == entry_object(*entry, file_json@, message_json@),
{
    let mut out = String::new();
    out.append("{\"timestamp\":");
    push_decimal(&mut out, entry.timestamp);
    out.append(",\"priority\":\"");
    out.append(entry.priority.as_str());
    out.append("\",\"file\":");
    out.append(file_json);
    out.append(",\"line\":");
    push_decimal(&mut out, entry.line as u64);
    out.append(",\"message\":");
    out.append(message_json);
    out.append(",\"counter\":");
    push_decimal(&mut out, entry.counter);
    out.append("}");
    assert(out@ =~= entry_object(*entry, file_json@, message_json@));
    out
}

/// Writes the object of `entry`, or returns `None` where one of its strings
/// cannot be written.
pub fn encode_entry(entry: &LogEntry) -> (out: Option<String>)
    ensures
        out matches Some(text) ==> entry_text(*entry) == Some(text@),
        out is None ==> entry_text(*entry) is None,
{
    match json_string(entry.file.as_str()) {
        Some(file_json) => match json_string(entry.message.as_str()) {
            Some(message_json) => Some(
                entry_json(entry, file_json.as_str(), message_json.as_str()),
            ),
            None => None,
        },
        None => None,
    }
}

/// Writes the document that holds the first `count` of `objects`.
pub fn document_of(objects: &Vec<String>, count: usize) -> (out: String)
    requires
        count <= objects.len(),
    ensures
        out@ == document(objects.deep_view().take(count as int)),
{
    let ghost texts = objects.deep_view();
    let mut out = String::new();
    out.append("{\"entries\":[");
    let ghost opening = out@;
    let mut i: usize = 0;
    while i < count
        invariant
            i <= count <= objects.len(),
            texts == objects.deep_view(),
            opening == "{\"entries\":["@,
            out@ == opening + joined(texts.take(i as int)),
        decreases count - i,
    {
        let ghost before = texts.take(i as int);
        let ghost after = texts.take(i + 1);
        proof {
            assert(after.drop_last() =~= before);
            assert(after.last() == objects[i as int]@);
        }
        if i > 0 {
            out.append(",");
        }
        out.append(objects[i].as_str());
        assert(out@ =~= opening + joined(after));
        i += 1;
    }
    out.append("]}");
    out
}

} // verus!
