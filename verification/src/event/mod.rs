//! Events of the log.
//!
//! An event is an immutable, content-addressed mutation of a work item. Events
//! are stored one to a line, as tab-separated fields with a JSON payload:
//!
//! ```text
//! wall_ts_us \t agent \t itc \t parents \t type \t item_id \t data \t event_hash
//! ```

pub use crate::event::canonical::{canonicalize_json, canonicalize_json_str};
pub use crate::event::data::{
    AssignAction, AssignData, CommentData, CompactData, CreateData, DataParseError, DeleteData,
    EventData, LinkData, MoveData, RedactData, SnapshotData, UnlinkData, UpdateData,
};
use crate::event::canonical::canonical_text;
use crate::event::data::Payload;
use crate::event::hash_text::{blake3_digest, digest, encode_hex, hex_text};
use crate::event::parser::hash_like;
pub use crate::event::parser::CURRENT_VERSION;
use crate::event::roundtrip::computed_hash_is_hash_like;
pub use crate::event::types::{EventType, UnknownEventType};
use crate::model::item_id::ItemId;
use crate::text::decimal::{i64_text, int_text};
use crate::text::order::{in_order, sort_strings};
use crate::text::slice::{copy_strings, join, join_strings, string_views};
use vstd::prelude::*;
use vstd::utf8::{decode_utf8, encode_utf8, is_char_boundary};

pub mod canonical;
pub mod compact;
pub mod data;
pub mod fields;
pub mod hash_text;
pub mod json;
pub mod line_laws;
pub mod members;
pub mod migrate;
pub mod parser;
pub mod payload_laws;
pub mod report_laws;
pub mod roundtrip;
pub mod text_laws;
pub mod types;
pub mod validate;
pub mod writer;

verus! {

/// A single event of the log.
#[derive(Debug, PartialEq, Eq)]
pub struct Event {
    /// Wall-clock timestamp in microseconds since the Unix epoch.
    pub wall_ts_us: i64,
    /// Identifier of the agent or user that produced this event.
    pub agent: String,
    /// Interval tree clock stamp as text.
    pub itc: String,
    /// Hashes of the parent events, in lexicographic order. Empty for the first
    /// event.
    pub parents: Vec<String>,
    /// The type of mutation this event represents.
    pub event_type: EventType,
    /// The work item being mutated.
    pub item_id: ItemId,
    /// Typed payload for the event type.
    pub data: EventData,
    /// Content hash of the other fields, `blake3:<hex>`.
    pub event_hash: String,
}

/// What an event holds.
pub ghost struct EventView {
    pub wall_ts_us: i64,
    pub agent: Seq<char>,
    pub itc: Seq<char>,
    pub parents: Seq<Seq<char>>,
    pub event_type: EventType,
    pub item_id: Seq<char>,
    pub data: Payload,
    pub event_hash: Seq<char>,
}

impl View for Event {
    type V = EventView;

    open spec fn view(&self) -> EventView {
        EventView {
            wall_ts_us: self.wall_ts_us,
            agent: self.agent@,
            itc: self.itc@,
            parents: string_views(self.parents@),
            event_type: self.event_type,
            item_id: self.item_id@,
            data: self.data@,
            event_hash: self.event_hash@,
        }
    }
}

/// The views of a sequence of events.
pub open spec fn event_views(events: Seq<Event>) -> Seq<EventView> {
    events.map_values(|e: Event| e@)
}

/// Fields with a tab between neighbours.
pub open spec fn tabbed(fields: Seq<Seq<char>>) -> Seq<char> {
    join(fields, seq!['\t'])
}

/// The hash of a line: that of its first seven fields and a line feed.
pub open spec fn line_hash(fields: Seq<Seq<char>>) -> Seq<char> {
    "blake3:"@ + hex_text(blake3_digest(encode_utf8(tabbed(fields).push('\n'))))
}

/// The start of a text, cut after forty bytes.
pub open spec fn preview(s: Seq<char>) -> Seq<char> {
    if encode_utf8(s).len() > 40 {
        decode_utf8(encode_utf8(s).subrange(0, 40)) + "..."@
    } else {
        s
    }
}

/// Whether a text can be cut after forty bytes.
pub open spec fn previewable(s: Seq<char>) -> bool {
    encode_utf8(s).len() > 40 ==> is_char_boundary(encode_utf8(s), 40)
}

impl EventView {
    /// The fields that are hashed, as they are written.
    pub open spec fn fields(self) -> Seq<Seq<char>> {
        seq![
            int_text(self.wall_ts_us as int),
            self.agent,
            self.itc,
            join(in_order(self.parents), seq![',']),
            self.event_type.name(),
            self.item_id,
            canonical_text(self.data.tree()),
        ]
    }

    /// The hash of the event's other fields.
    pub open spec fn computed_hash(self) -> Seq<char> {
        line_hash(self.fields())
    }

    /// The payload in a few words.
    pub open spec fn abstract_text(self) -> Seq<char> {
        match self.data {
            Payload::Create(d) => "create: "@ + d.title,
            Payload::Update(d) => "update: "@ + d.field + "="@ + canonical_text(d.value),
            Payload::Move(d) => "move: "@ + d.state.name(),
            Payload::Assign(d) => d.action.name() + ": "@ + d.agent,
            Payload::Comment(d) => "comment: "@ + preview(d.body),
            Payload::Link(d) => "link: "@ + d.link_type + " "@ + d.target,
            Payload::Unlink(d) => "unlink: "@ + d.target,
            Payload::Delete(_) => "delete"@,
            Payload::Compact(d) => "compact: "@ + preview(d.summary),
            Payload::Snapshot(_) => "snapshot"@,
            Payload::Redact(d) => "redact: "@ + d.target_hash,
        }
    }

    /// Whether the payload can be put in a few words.
    pub open spec fn displayable(self) -> bool {
        match self.data {
            Payload::Comment(d) => previewable(d.body),
            Payload::Compact(d) => previewable(d.summary),
            _ => true,
        }
    }

    /// The event as text for people.
    pub open spec fn text(self) -> Seq<char> {
        tabbed(
            seq![
                int_text(self.wall_ts_us as int),
                self.agent,
                self.event_type.name(),
                self.item_id,
                self.event_hash,
                self.abstract_text(),
            ],
        )
    }
}

/// Joins fields with tabs.
pub(crate) fn join_tabbed(fields: &Vec<&str>) -> (r: String)
    ensures
        r@ == tabbed(crate::text::slice::views(fields@)),
{
    let mut owned: Vec<String> = Vec::new();
    let mut i: usize = 0;
    while i < fields.len()
        invariant
            i <= fields.len(),
            owned.len() == i,
            forall|k: int| 0 <= k < i ==> (#[trigger] owned@[k])@ == fields@[k]@,
        decreases fields.len() - i,
    {
        owned.push(fields[i].to_owned());
        i += 1;
    }
    let r = join_strings(&owned, "\t");
    proof {
        reveal_strlit("\t");
        assert("\t"@ =~= seq!['\t']);
        assert(string_views(owned@) =~= crate::text::slice::views(fields@));
    }
    r
}

/// Computes the hash of a line from its first seven fields.
pub fn hash_fields(fields: &Vec<&str>) -> (r: String)
    ensures
        r@ == line_hash(crate::text::slice::views(fields@)),
        hash_like(r@),
{
    let mut input = join_tabbed(fields);
    input.push('\n');
    let hash = digest(input.as_str().as_bytes());
    proof {
        computed_hash_is_hash_like(crate::text::slice::views(fields@));
    }
    let mut r = "blake3:".to_owned();
    r.append(encode_hex(hash.as_slice()).as_str());
    r
}

fn preview_of(s: &str) -> (r: String)
    requires
        previewable(s@),
    ensures
        r@ == preview(s@),
{
    if s.as_bytes().len() > 40 {
        let (head, _tail) = s.split_at(40);
        proof {
            vstd::utf8::encode_utf8_decode_utf8(head@);
        }
        let mut r = head.to_owned();
        r.append("...");
        r
    } else {
        s.to_owned()
    }
}

impl Event {
    /// The parents as one field: in lexicographic order, separated by commas;
    /// empty if there are none.
    #[must_use]
    pub fn parents_str(&self) -> (r: String)
        ensures
            r@ == join(in_order(self@.parents), seq![',']),
    {
        let r = join_strings(&sort_strings(&self.parents), ",");
        proof {
            reveal_strlit(",");
            assert(","@ =~= seq![',']);
        }
        r
    }

    fn abstract_str(&self) -> (r: String)
        requires
            self@.displayable(),
        ensures
            r@ == self@.abstract_text(),
    {
        let mut s = String::new();
        match &self.data {
            EventData::Create(d) => {
                s.append("create: ");
                s.append(d.title.as_str());
            },
            EventData::Update(d) => {
                s.append("update: ");
                s.append(d.field.as_str());
                s.append("=");
                s.append(canonicalize_json(&d.value).as_str());
            },
            EventData::Move(d) => {
                s.append("move: ");
                s.append(d.state.as_str());
            },
            EventData::Assign(d) => {
                s.append(d.action.as_str());
                s.append(": ");
                s.append(d.agent.as_str());
            },
            EventData::Comment(d) => {
                s.append("comment: ");
                s.append(preview_of(d.body.as_str()).as_str());
            },
            EventData::Link(d) => {
                s.append("link: ");
                s.append(d.link_type.as_str());
                s.append(" ");
                s.append(d.target.as_str());
            },
            EventData::Unlink(d) => {
                s.append("unlink: ");
                s.append(d.target.as_str());
            },
            EventData::Delete(_) => {
                s.append("delete");
            },
            EventData::Compact(d) => {
                s.append("compact: ");
                s.append(preview_of(d.summary.as_str()).as_str());
            },
            EventData::Snapshot(_) => {
                s.append("snapshot");
            },
            EventData::Redact(d) => {
                s.append("redact: ");
                s.append(d.target_hash.as_str());
            },
        }
        assert(s@ =~= self@.abstract_text());
        s
    }

    /// The event as text for people, with the payload abbreviated.
    pub fn to_string(&self) -> (r: String)
        requires
            self@.displayable(),
        ensures
            r@ == self@.text(),
    {
        let ts = i64_text(self.wall_ts_us);
        let data = self.abstract_str();
        let fields: Vec<&str> = vec![
            ts.as_str(),
            self.agent.as_str(),
            self.event_type.as_str(),
            self.item_id.as_str(),
            self.event_hash.as_str(),
            data.as_str(),
        ];
        proof {
            let e = self@;
            assert(crate::text::slice::views(fields@) =~= seq![
                int_text(e.wall_ts_us as int),
                e.agent,
                e.event_type.name(),
                e.item_id,
                e.event_hash,
                e.abstract_text(),
            ]);
        }
        join_tabbed(&fields)
    }
}

impl Clone for Event {
    fn clone(&self) -> (r: Self)
        ensures
            r@ == self@,
    {
        Event {
            wall_ts_us: self.wall_ts_us,
            agent: self.agent.clone(),
            itc: self.itc.clone(),
            parents: copy_strings(&self.parents),
            event_type: self.event_type,
            item_id: self.item_id.clone(),
            data: self.data.clone(),
            event_hash: self.event_hash.clone(),
        }
    }
}

}
