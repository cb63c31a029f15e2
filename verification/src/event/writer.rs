//! Writing events to the log.
//!
//! The payload is written as canonical JSON on one line, so one event always
//! gives the same bytes. The hash of an event is the BLAKE3 hash of its first
//! seven fields joined by tabs and ended by a line feed.

use crate::event::canonical::{canonical_text, canonicalize_json, depth_limit};
use crate::event::parser::hash_like;
use crate::event::roundtrip::{canonical_text_is_printable, parents_are_written_in_order};
use crate::event::{hash_fields, join_tabbed, tabbed, Event, EventView};
use crate::text::decimal::i64_text;
use crate::text::slice::{str_contains_char, views};
use vstd::prelude::*;

verus! {

/// The header line at the start of an event log file.
pub const SHARD_HEADER: &'static str = "# bones event log v1";

/// The comment line that names the fields.
pub const FIELD_COMMENT: &'static str =
    "# fields: wall_ts_us\tagent\titc\tparents\ttype\titem_id\tdata\tevent_hash";

/// Why an event is not written.
#[derive(Debug, PartialEq, Eq)]
pub enum WriteError {
    /// The JSON payload contains a literal line feed.
    NewlineInPayload,
    /// The payload cannot be turned into JSON.
    SerializeData(String),
}

impl WriteError {
    /// The explanation of the error.
    pub open spec fn text(self) -> Seq<char> {
        match self {
            WriteError::NewlineInPayload =>
                "JSON payload contains literal newline — one-line invariant violated"@,
            WriteError::SerializeData(e) => "failed to serialize event data: "@ + e@,
        }
    }

    /// Explains the error.
    pub fn to_string(&self) -> (r: String)
        ensures
            r@ == self.text(),
    {
        match self {
            WriteError::NewlineInPayload => {
                "JSON payload contains literal newline — one-line invariant violated".to_owned()
            },
            WriteError::SerializeData(e) => {
                let mut s = "failed to serialize event data: ".to_owned();
                s.append(e.as_str());
                s
            },
        }
    }
}

impl EventView {
    /// The payload as it is written.
    pub open spec fn data_text(self) -> Seq<char> {
        canonical_text(self.data.tree())
    }

    /// The line of the event, without the line feed that ends it.
    pub open spec fn line(self) -> Seq<char> {
        tabbed(self.fields().push(self.event_hash))
    }
}

/// Returns the header block for a new event file, each line with its line feed.
#[must_use]
pub fn shard_header() -> (r: String)
    ensures
        r@ == SHARD_HEADER@.push('\n') + FIELD_COMMENT@.push('\n'),
{
    let mut s = SHARD_HEADER.to_owned();
    s.push('\n');
    s.append(FIELD_COMMENT);
    s.push('\n');
    assert(s@ =~= SHARD_HEADER@.push('\n') + FIELD_COMMENT@.push('\n'));
    s
}

/// Writes an event as one line, without the line feed that ends it. The
/// `event_hash` is taken over as it is.
pub fn to_tsjson_line(event: &Event) -> (r: Result<String, WriteError>)
    ensures
        match r {
            Ok(line) => !event@.data_text().contains('\n') && line@ == event@.line(),
            Err(e) => event@.data_text().contains('\n') && e == WriteError::NewlineInPayload,
        },
{
    let data_json = match canonical_data_json(event) {
        Ok(json) => json,
        Err(e) => return Err(e),
    };
    if str_contains_char(data_json.as_str(), '\n') {
        return Err(WriteError::NewlineInPayload);
    }
    let ts = i64_text(event.wall_ts_us);
    let parents = event.parents_str();
    let fields: Vec<&str> = vec![
        ts.as_str(),
        event.agent.as_str(),
        event.itc.as_str(),
        parents.as_str(),
        event.event_type.as_str(),
        event.item_id.as_str(),
        data_json.as_str(),
        event.event_hash.as_str(),
    ];
    assert(views(fields@) =~= event@.fields().push(event@.event_hash));
    Ok(join_tabbed(&fields))
}

/// Writes an event as one line with the line feed that ends it.
pub fn write_line(event: &Event) -> (r: Result<String, WriteError>)
    ensures
        match r {
            Ok(line) => !event@.data_text().contains('\n') && line@ == event@.line().push('\n'),
            Err(e) => event@.data_text().contains('\n') && e == WriteError::NewlineInPayload,
        },
{
    match to_tsjson_line(event) {
        Ok(line) => {
            let mut line = line;
            line.push('\n');
            Ok(line)
        },
        Err(e) => Err(e),
    }
}

/// Computes the hash of an event from its other fields, as `blake3:<hex>`.
pub fn compute_event_hash(event: &Event) -> (r: Result<String, WriteError>)
    ensures
        r is Ok,
        r->Ok_0@ == event@.computed_hash(),
        hash_like(r->Ok_0@),
{
    let data_json = match canonical_data_json(event) {
        Ok(json) => json,
        Err(e) => return Err(e),
    };
    let ts = i64_text(event.wall_ts_us);
    let parents = event.parents_str();
    let fields: Vec<&str> = vec![
        ts.as_str(),
        event.agent.as_str(),
        event.itc.as_str(),
        parents.as_str(),
        event.event_type.as_str(),
        event.item_id.as_str(),
        data_json.as_str(),
    ];
    assert(views(fields@) =~= event@.fields());
    Ok(hash_fields(&fields))
}

/// Computes the hash of an event, stores it in the event and writes the event
/// as a line with its line feed. An event that is fit for the log is written, and
/// its line is read back, with the parents in order.
pub fn write_event(event: &mut Event) -> (r: Result<String, WriteError>)
    ensures
        final(event)@ == (EventView { event_hash: old(event)@.computed_hash(), ..old(event)@ }),
        hash_like(final(event)@.event_hash),
        match r {
            Ok(line) => {
                &&& !old(event)@.data_text().contains('\n')
                &&& line@ == final(event)@.line().push('\n')
            },
            Err(e) => old(event)@.data_text().contains('\n') && e == WriteError::NewlineInPayload,
        },
        old(event)@.ordered().fit() ==> r is Ok && final(event)@.ordered().writable()
            && final(event)@.ordered().stands_in(r->Ok_0@),
        old(event)@.fit() ==> r is Ok && final(event)@.writable(),
{
    proof {
        if event@.ordered().fit() {
            canonical_text_is_printable(event@.data.tree(), depth_limit());
        }
        let hashed = EventView { event_hash: event@.computed_hash(), ..event@ };
        parents_are_written_in_order(event@);
        parents_are_written_in_order(hashed);
        hash_leaves_itself_out(event@, event@.computed_hash());
    }
    match compute_event_hash(event) {
        Ok(hash) => {
            event.event_hash = hash;
        },
        Err(e) => return Err(e),
    }
    write_line(event)
}

/// The hash of an event depends on the other fields alone: not on the hash that
/// is stored in it.
pub proof fn hash_leaves_itself_out(e: EventView, stored: Seq<char>)
    ensures
        (EventView { event_hash: stored, ..e }).computed_hash() == e.computed_hash(),
{
    let other = EventView { event_hash: stored, ..e };
    assert(other.fields() =~= e.fields());
}

/// The payload as canonical JSON.
fn canonical_data_json(event: &Event) -> (r: Result<String, WriteError>)
    ensures
        r is Ok,
        r->Ok_0@ == event@.data_text(),
{
    match event.data.to_json_value() {
        Ok(value) => Ok(canonicalize_json(&value)),
        Err(e) => Err(WriteError::SerializeData(e)),
    }
}

}
