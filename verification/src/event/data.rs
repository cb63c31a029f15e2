//! Typed payloads, one for each event type.
//!
//! A payload is a JSON object. Keys that the event type does not know are kept
//! in `extra`, so that payloads written by a later version survive.

use crate::event::canonical::{
    canonical_text, depth_limit, json_error, key_order, keys_are_in_order, parse_json, parsed_json,
    plain,
};
use crate::event::fields::{
    field_action, field_json, field_kind, field_opt_size, field_opt_text, field_state, field_text,
    field_texts, field_urgency_or_default, find_flaw, flaw, get_action, get_json, get_kind,
    get_opt_size, get_opt_text, get_others, get_state, get_text, get_texts, get_urgency_or_default,
    others, outline_keys, text_trees, text_values, texts_in,
};
use crate::event::json::{ascending, JsonMap, JsonTree, JsonValue};
use crate::event::members::{outline, outline_in, outline_of, outline_view, size_of_value};
use crate::event::types::EventType;
use crate::model::item::{Kind, Size, State, Urgency};
use crate::text::order::{lex_lt, lex_lt_irreflexive};
use crate::text::slice::{copy_opt, copy_strings, opt_view, str_eq, string_views, views};
use vstd::prelude::*;

verus! {

/// Whether an agent is being assigned or unassigned.
#[derive(Clone, Copy, Debug, PartialEq, Eq, Hash, Structural)]
pub enum AssignAction {
    /// Assign an agent to the work item.
    Assign,
    /// Remove an agent from the work item.
    Unassign,
}

impl AssignAction {
    /// The text form.
    pub open spec fn name(self) -> Seq<char> {
        match self {
            AssignAction::Assign => "assign"@,
            AssignAction::Unassign => "unassign"@,
        }
    }

    /// The action whose text form is `s`.
    pub open spec fn named(s: Seq<char>) -> Option<AssignAction> {
        if s == "assign"@ {
            Some(AssignAction::Assign)
        } else if s == "unassign"@ {
            Some(AssignAction::Unassign)
        } else {
            None
        }
    }

    /// Reads an action, or reports the text that is not one.
    pub fn from_str(s: &str) -> (r: Result<AssignAction, ParseAssignActionError>)
        ensures
            match r {
                Ok(action) => AssignAction::named(s@) == Some(action),
                Err(e) => AssignAction::named(s@) is None && e.0@ == s@,
            },
    {
        match AssignAction::from_name(s) {
            Some(action) => Ok(action),
            None => Err(ParseAssignActionError(s.to_owned())),
        }
    }

    /// The text form, owned.
    pub fn to_string(&self) -> (r: String)
        ensures
            r@ == self.name(),
    {
        self.as_str().to_owned()
    }

    /// Returns the canonical text form.
    pub fn as_str(self) -> (r: &'static str)
        ensures
            r@ == self.name(),
    {
        match self {
            AssignAction::Assign => "assign",
            AssignAction::Unassign => "unassign",
        }
    }

    /// Reads a action from its text form.
    pub fn from_name(s: &str) -> (r: Option<AssignAction>)
        ensures
            r == AssignAction::named(s@),
    {
        if str_eq(s, "assign") {
            Some(AssignAction::Assign)
        } else if str_eq(s, "unassign") {
            Some(AssignAction::Unassign)
        } else {
            None
        }
    }

    /// Every action is read back from its text form.
    pub proof fn name_reads_back(self)
        ensures
            AssignAction::named(self.name()) == Some(self),
    {
        reveal_strlit("assign");
        reveal_strlit("unassign");
        assert("assign"@.len() != "unassign"@.len());
    }
}

impl std::str::FromStr for AssignAction {
    type Err = ParseAssignActionError;

    fn from_str(s: &str) -> (r: Result<Self, ParseAssignActionError>)
        ensures
            match r {
                Ok(action) => AssignAction::named(s@) == Some(action),
                Err(e) => AssignAction::named(s@) is None && e.0@ == s@,
            },
    {
        AssignAction::from_str(s)
    }
}

/// A text that is not an assign action.
#[derive(Debug, PartialEq, Eq)]
pub struct ParseAssignActionError(pub String);

impl ParseAssignActionError {
    /// Explains the error.
    pub fn to_string(&self) -> (r: String)
        ensures
            r@ == "invalid assign action '"@ + self.0@ + "': expected 'assign' or 'unassign'"@,
    {
        let mut s = "invalid assign action '".to_owned();
        s.append(self.0.as_str());
        s.append("': expected 'assign' or 'unassign'");
        s
    }
}

impl Clone for ParseAssignActionError {
    fn clone(&self) -> (r: Self)
        ensures
            r == *self,
    {
        ParseAssignActionError(self.0.clone())
    }
}

/// Why the JSON payload of an event is not accepted.
#[derive(Debug, PartialEq, Eq)]
pub struct DataParseError {
    /// The event type that the payload should have.
    pub event_type: EventType,
    /// What is wrong with the payload.
    pub source: String,
}

impl DataParseError {
    /// The explanation.
    pub open spec fn text(self) -> Seq<char> {
        "invalid "@ + self.event_type.name() + " data payload: "@ + self.source@
    }

    /// Explains the error.
    pub fn to_string(&self) -> (r: String)
        ensures
            r@ == self.text(),
    {
        let mut s = "invalid ".to_owned();
        s.append(self.event_type.as_str());
        s.append(" data payload: ");
        s.append(self.source.as_str());
        s
    }
}

/// Payload for `item.create`: a new work item with initial field values.
#[derive(Debug, PartialEq, Eq)]
pub struct CreateData {
    /// Title of the new work item.
    pub title: String,
    /// Kind of work item.
    pub kind: Kind,
    /// Optional t-shirt size estimate.
    pub size: Option<Size>,
    /// Priority override.
    pub urgency: Urgency,
    /// Initial labels.
    pub labels: Vec<String>,
    /// Optional parent item.
    pub parent: Option<String>,
    /// Optional item that triggered this creation, for the audit trail only.
    pub causation: Option<String>,
    /// Optional initial description.
    pub description: Option<String>,
    /// Unknown keys, kept as they are.
    pub extra: JsonMap,
}

/// Payload for `item.update`: a single field and its new value.
#[derive(Debug, PartialEq, Eq)]
pub struct UpdateData {
    /// Name of the field being updated.
    pub field: String,
    /// New value for the field.
    pub value: JsonValue,
    /// Unknown keys, kept as they are.
    pub extra: JsonMap,
}

/// Payload for `item.move`: a transition to a lifecycle state.
#[derive(Debug, PartialEq, Eq)]
pub struct MoveData {
    /// Target state.
    pub state: State,
    /// Optional reason for the transition.
    pub reason: Option<String>,
    /// Unknown keys, kept as they are.
    pub extra: JsonMap,
}

/// Payload for `item.assign`: an agent assigned or unassigned.
#[derive(Debug, PartialEq, Eq)]
pub struct AssignData {
    /// Agent being assigned or unassigned.
    pub agent: String,
    /// Whether this is an assignment or a removal.
    pub action: AssignAction,
    /// Unknown keys, kept as they are.
    pub extra: JsonMap,
}

/// Payload for `item.comment`: a comment or note.
#[derive(Debug, PartialEq, Eq)]
pub struct CommentData {
    /// Comment body text.
    pub body: String,
    /// Unknown keys, kept as they are.
    pub extra: JsonMap,
}

/// Payload for `item.link`: a relationship between work items.
#[derive(Debug, PartialEq, Eq)]
pub struct LinkData {
    /// Target item of the link.
    pub target: String,
    /// Type of relationship (e.g. `blocks`, `related_to`).
    pub link_type: String,
    /// Unknown keys, kept as they are.
    pub extra: JsonMap,
}

/// Payload for `item.unlink`: a relationship that ends.
#[derive(Debug, PartialEq, Eq)]
pub struct UnlinkData {
    /// Target item to unlink.
    pub target: String,
    /// Type of relationship being removed.
    pub link_type: Option<String>,
    /// Unknown keys, kept as they are.
    pub extra: JsonMap,
}

/// Payload for `item.delete`: a soft delete.
#[derive(Debug, PartialEq, Eq)]
pub struct DeleteData {
    /// Optional reason for deletion.
    pub reason: Option<String>,
    /// Unknown keys, kept as they are.
    pub extra: JsonMap,
}

/// Payload for `item.compact`: a summary in place of the description.
#[derive(Debug, PartialEq, Eq)]
pub struct CompactData {
    /// Summary text replacing the original description.
    pub summary: String,
    /// Unknown keys, kept as they are.
    pub extra: JsonMap,
}

/// Payload for `item.snapshot`: the compacted state of a completed item.
#[derive(Debug, PartialEq, Eq)]
pub struct SnapshotData {
    /// The full compacted state of the work item.
    pub state: JsonValue,
    /// Unknown keys, kept as they are.
    pub extra: JsonMap,
}

/// Payload for `item.redact`: an event whose payload is hidden.
#[derive(Debug, PartialEq, Eq)]
pub struct RedactData {
    /// Hash of the event whose payload should be redacted.
    pub target_hash: String,
    /// Reason for redaction.
    pub reason: String,
    /// Unknown keys, kept as they are.
    pub extra: JsonMap,
}

/// Typed payload for an event. Which one it is, the event type says.
#[derive(Debug, PartialEq, Eq)]
pub enum EventData {
    /// Payload for `item.create`.
    Create(CreateData),
    /// Payload for `item.update`.
    Update(UpdateData),
    /// Payload for `item.move`.
    Move(MoveData),
    /// Payload for `item.assign`.
    Assign(AssignData),
    /// Payload for `item.comment`.
    Comment(CommentData),
    /// Payload for `item.link`.
    Link(LinkData),
    /// Payload for `item.unlink`.
    Unlink(UnlinkData),
    /// Payload for `item.delete`.
    Delete(DeleteData),
    /// Payload for `item.compact`.
    Compact(CompactData),
    /// Payload for `item.snapshot`.
    Snapshot(SnapshotData),
    /// Payload for `item.redact`.
    Redact(RedactData),
}

/// What a [`CreateData`] holds.
#[verifier::ext_equal]
pub ghost struct CreateView {
    pub title: Seq<char>,
    pub kind: Kind,
    pub size: Option<Size>,
    pub urgency: Urgency,
    pub labels: Seq<Seq<char>>,
    pub parent: Option<Seq<char>>,
    pub causation: Option<Seq<char>>,
    pub description: Option<Seq<char>>,
    pub extra: Map<Seq<char>, JsonTree>,
}

/// What a [`UpdateData`] holds.
#[verifier::ext_equal]
pub ghost struct UpdateView {
    pub field: Seq<char>,
    pub value: JsonTree,
    pub extra: Map<Seq<char>, JsonTree>,
}

/// What a [`MoveData`] holds.
#[verifier::ext_equal]
pub ghost struct MoveView {
    pub state: State,
    pub reason: Option<Seq<char>>,
    pub extra: Map<Seq<char>, JsonTree>,
}

/// What a [`AssignData`] holds.
#[verifier::ext_equal]
pub ghost struct AssignView {
    pub agent: Seq<char>,
    pub action: AssignAction,
    pub extra: Map<Seq<char>, JsonTree>,
}

/// What a [`CommentData`] holds.
#[verifier::ext_equal]
pub ghost struct CommentView {
    pub body: Seq<char>,
    pub extra: Map<Seq<char>, JsonTree>,
}

/// What a [`LinkData`] holds.
#[verifier::ext_equal]
pub ghost struct LinkView {
    pub target: Seq<char>,
    pub link_type: Seq<char>,
    pub extra: Map<Seq<char>, JsonTree>,
}

/// What a [`UnlinkData`] holds.
#[verifier::ext_equal]
pub ghost struct UnlinkView {
    pub target: Seq<char>,
    pub link_type: Option<Seq<char>>,
    pub extra: Map<Seq<char>, JsonTree>,
}

/// What a [`DeleteData`] holds.
#[verifier::ext_equal]
pub ghost struct DeleteView {
    pub reason: Option<Seq<char>>,
    pub extra: Map<Seq<char>, JsonTree>,
}

/// What a [`CompactData`] holds.
#[verifier::ext_equal]
pub ghost struct CompactView {
    pub summary: Seq<char>,
    pub extra: Map<Seq<char>, JsonTree>,
}

/// What a [`SnapshotData`] holds.
#[verifier::ext_equal]
pub ghost struct SnapshotView {
    pub state: JsonTree,
    pub extra: Map<Seq<char>, JsonTree>,
}

/// What a [`RedactData`] holds.
#[verifier::ext_equal]
pub ghost struct RedactView {
    pub target_hash: Seq<char>,
    pub reason: Seq<char>,
    pub extra: Map<Seq<char>, JsonTree>,
}

/// What a payload holds.
pub ghost enum Payload {
    Create(CreateView),
    Update(UpdateView),
    Move(MoveView),
    Assign(AssignView),
    Comment(CommentView),
    Link(LinkView),
    Unlink(UnlinkView),
    Delete(DeleteView),
    Compact(CompactView),
    Snapshot(SnapshotView),
    Redact(RedactView),
}

impl View for CreateData {
    type V = CreateView;

    open spec fn view(&self) -> CreateView {
        CreateView {
            title: self.title@,
            kind: self.kind,
            size: self.size,
            urgency: self.urgency,
            labels: string_views(self.labels@),
            parent: opt_view(self.parent),
            causation: opt_view(self.causation),
            description: opt_view(self.description),
            extra: self.extra.meaning(),
        }
    }
}

impl Clone for CreateData {
    fn clone(&self) -> (r: Self)
        ensures
            r@ == self@,
    {
        CreateData {
            title: self.title.clone(),
            kind: self.kind,
            size: self.size,
            urgency: self.urgency,
            labels: copy_strings(&self.labels),
            parent: copy_opt(&self.parent),
            causation: copy_opt(&self.causation),
            description: copy_opt(&self.description),
            extra: self.extra.clone(),
        }
    }
}

impl View for UpdateData {
    type V = UpdateView;

    open spec fn view(&self) -> UpdateView {
        UpdateView {
            field: self.field@,
            value: self.value.tree(),
            extra: self.extra.meaning(),
        }
    }
}

impl Clone for UpdateData {
    fn clone(&self) -> (r: Self)
        ensures
            r@ == self@,
    {
        UpdateData {
            field: self.field.clone(),
            value: self.value.clone(),
            extra: self.extra.clone(),
        }
    }
}

impl View for MoveData {
    type V = MoveView;

    open spec fn view(&self) -> MoveView {
        MoveView {
            state: self.state,
            reason: opt_view(self.reason),
            extra: self.extra.meaning(),
        }
    }
}

impl Clone for MoveData {
    fn clone(&self) -> (r: Self)
        ensures
            r@ == self@,
    {
        MoveData {
            state: self.state,
            reason: copy_opt(&self.reason),
            extra: self.extra.clone(),
        }
    }
}

impl View for AssignData {
    type V = AssignView;

    open spec fn view(&self) -> AssignView {
        AssignView {
            agent: self.agent@,
            action: self.action,
            extra: self.extra.meaning(),
        }
    }
}

impl Clone for AssignData {
    fn clone(&self) -> (r: Self)
        ensures
            r@ == self@,
    {
        AssignData {
            agent: self.agent.clone(),
            action: self.action,
            extra: self.extra.clone(),
        }
    }
}

impl View for CommentData {
    type V = CommentView;

    open spec fn view(&self) -> CommentView {
        CommentView {
            body: self.body@,
            extra: self.extra.meaning(),
        }
    }
}

impl Clone for CommentData {
    fn clone(&self) -> (r: Self)
        ensures
            r@ == self@,
    {
        CommentData {
            body: self.body.clone(),
            extra: self.extra.clone(),
        }
    }
}

impl View for LinkData {
    type V = LinkView;

    open spec fn view(&self) -> LinkView {
        LinkView {
            target: self.target@,
            link_type: self.link_type@,
            extra: self.extra.meaning(),
        }
    }
}

impl Clone for LinkData {
    fn clone(&self) -> (r: Self)
        ensures
            r@ == self@,
    {
        LinkData {
            target: self.target.clone(),
            link_type: self.link_type.clone(),
            extra: self.extra.clone(),
        }
    }
}

impl View for UnlinkData {
    type V = UnlinkView;

    open spec fn view(&self) -> UnlinkView {
        UnlinkView {
            target: self.target@,
            link_type: opt_view(self.link_type),
            extra: self.extra.meaning(),
        }
    }
}

impl Clone for UnlinkData {
    fn clone(&self) -> (r: Self)
        ensures
            r@ == self@,
    {
        UnlinkData {
            target: self.target.clone(),
            link_type: copy_opt(&self.link_type),
            extra: self.extra.clone(),
        }
    }
}

impl View for DeleteData {
    type V = DeleteView;

    open spec fn view(&self) -> DeleteView {
        DeleteView {
            reason: opt_view(self.reason),
            extra: self.extra.meaning(),
        }
    }
}

impl Clone for DeleteData {
    fn clone(&self) -> (r: Self)
        ensures
            r@ == self@,
    {
        DeleteData {
            reason: copy_opt(&self.reason),
            extra: self.extra.clone(),
        }
    }
}

impl View for CompactData {
    type V = CompactView;

    open spec fn view(&self) -> CompactView {
        CompactView {
            summary: self.summary@,
            extra: self.extra.meaning(),
        }
    }
}

impl Clone for CompactData {
    fn clone(&self) -> (r: Self)
        ensures
            r@ == self@,
    {
        CompactData {
            summary: self.summary.clone(),
            extra: self.extra.clone(),
        }
    }
}

impl View for SnapshotData {
    type V = SnapshotView;

    open spec fn view(&self) -> SnapshotView {
        SnapshotView {
            state: self.state.tree(),
            extra: self.extra.meaning(),
        }
    }
}

impl Clone for SnapshotData {
    fn clone(&self) -> (r: Self)
        ensures
            r@ == self@,
    {
        SnapshotData {
            state: self.state.clone(),
            extra: self.extra.clone(),
        }
    }
}

impl View for RedactData {
    type V = RedactView;

    open spec fn view(&self) -> RedactView {
        RedactView {
            target_hash: self.target_hash@,
            reason: self.reason@,
            extra: self.extra.meaning(),
        }
    }
}

impl Clone for RedactData {
    fn clone(&self) -> (r: Self)
        ensures
            r@ == self@,
    {
        RedactData {
            target_hash: self.target_hash.clone(),
            reason: self.reason.clone(),
            extra: self.extra.clone(),
        }
    }
}

impl View for EventData {
    type V = Payload;

    open spec fn view(&self) -> Payload {
        match self {
            EventData::Create(d) => Payload::Create(d@),
            EventData::Update(d) => Payload::Update(d@),
            EventData::Move(d) => Payload::Move(d@),
            EventData::Assign(d) => Payload::Assign(d@),
            EventData::Comment(d) => Payload::Comment(d@),
            EventData::Link(d) => Payload::Link(d@),
            EventData::Unlink(d) => Payload::Unlink(d@),
            EventData::Delete(d) => Payload::Delete(d@),
            EventData::Compact(d) => Payload::Compact(d@),
            EventData::Snapshot(d) => Payload::Snapshot(d@),
            EventData::Redact(d) => Payload::Redact(d@),
        }
    }
}

impl Clone for EventData {
    fn clone(&self) -> (r: Self)
        ensures
            r@ == self@,
    {
        match self {
            EventData::Create(d) => EventData::Create(d.clone()),
            EventData::Update(d) => EventData::Update(d.clone()),
            EventData::Move(d) => EventData::Move(d.clone()),
            EventData::Assign(d) => EventData::Assign(d.clone()),
            EventData::Comment(d) => EventData::Comment(d.clone()),
            EventData::Link(d) => EventData::Link(d.clone()),
            EventData::Unlink(d) => EventData::Unlink(d.clone()),
            EventData::Delete(d) => EventData::Delete(d.clone()),
            EventData::Compact(d) => EventData::Compact(d.clone()),
            EventData::Snapshot(d) => EventData::Snapshot(d.clone()),
            EventData::Redact(d) => EventData::Redact(d.clone()),
        }
    }
}

impl Payload {
    /// The event type that a payload belongs to.
    pub open spec fn event_type(self) -> EventType {
        match self {
            Payload::Create(_) => EventType::Create,
            Payload::Update(_) => EventType::Update,
            Payload::Move(_) => EventType::Move,
            Payload::Assign(_) => EventType::Assign,
            Payload::Comment(_) => EventType::Comment,
            Payload::Link(_) => EventType::Link,
            Payload::Unlink(_) => EventType::Unlink,
            Payload::Delete(_) => EventType::Delete,
            Payload::Compact(_) => EventType::Compact,
            Payload::Snapshot(_) => EventType::Snapshot,
            Payload::Redact(_) => EventType::Redact,
        }
    }

    /// The keys that the event type does not know.
    pub open spec fn extra(self) -> Map<Seq<char>, JsonTree> {
        match self {
            Payload::Create(d) => d.extra,
            Payload::Update(d) => d.extra,
            Payload::Move(d) => d.extra,
            Payload::Assign(d) => d.extra,
            Payload::Comment(d) => d.extra,
            Payload::Link(d) => d.extra,
            Payload::Unlink(d) => d.extra,
            Payload::Delete(d) => d.extra,
            Payload::Compact(d) => d.extra,
            Payload::Snapshot(d) => d.extra,
            Payload::Redact(d) => d.extra,
        }
    }
}

/// The keys that `item.create` knows.
pub open spec fn create_keys() -> Seq<Seq<char>> {
    seq!["title"@, "kind"@, "size"@, "urgency"@, "labels"@, "parent"@, "causation"@, "description"@]
}

/// Reads the payload of `item.create`.
pub open spec fn read_create(m: Map<Seq<char>, JsonTree>) -> Result<CreateView, Seq<char>> {
    match field_text(m, "title"@) {
        Err(e) => Err(e),
        Ok(title) => 
            match field_kind(m, "kind"@) {
                Err(e) => Err(e),
                Ok(kind) => 
                    match field_opt_size(m, "size"@) {
                        Err(e) => Err(e),
                        Ok(size) => 
                            match field_urgency_or_default(m, "urgency"@) {
                                Err(e) => Err(e),
                                Ok(urgency) => 
                                    match field_texts(m, "labels"@) {
                                        Err(e) => Err(e),
                                        Ok(labels) => 
                                            match field_opt_text(m, "parent"@) {
                                                Err(e) => Err(e),
                                                Ok(parent) => 
                                                    match field_opt_text(m, "causation"@) {
                                                        Err(e) => Err(e),
                                                        Ok(causation) => 
                                                            match field_opt_text(m, "description"@) {
                                                                Err(e) => Err(e),
                                                                Ok(description) => Ok(CreateView { title, kind, size, urgency, labels, parent, causation, description, extra: others(m, create_keys()) }),
                                                            },
                                                    },
                                            },
                                    },
                            },
                    },
            },
    }
}

impl CreateData {
    fn from_map(map: &JsonMap) -> (r: Result<CreateData, String>)
        ensures
            match r {
                Ok(d) => read_create(map.meaning()) == Ok::<CreateView, Seq<char>>(d@),
                Err(e) => read_create(map.meaning()) == Err::<CreateView, Seq<char>>(e@),
            },
    {
        let title = match get_text(map, "title") {
            Ok(v) => v,
            Err(e) => return Err(e),
        };
        let kind = match get_kind(map, "kind") {
            Ok(v) => v,
            Err(e) => return Err(e),
        };
        let size = match get_opt_size(map, "size") {
            Ok(v) => v,
            Err(e) => return Err(e),
        };
        let urgency = match get_urgency_or_default(map, "urgency") {
            Ok(v) => v,
            Err(e) => return Err(e),
        };
        let labels = match get_texts(map, "labels") {
            Ok(v) => v,
            Err(e) => return Err(e),
        };
        let parent = match get_opt_text(map, "parent") {
            Ok(v) => v,
            Err(e) => return Err(e),
        };
        let causation = match get_opt_text(map, "causation") {
            Ok(v) => v,
            Err(e) => return Err(e),
        };
        let description = match get_opt_text(map, "description") {
            Ok(v) => v,
            Err(e) => return Err(e),
        };
        let known: Vec<&str> = vec!["title", "kind", "size", "urgency", "labels", "parent", "causation", "description"];
        assert(views(known@) =~= create_keys());
        let extra = get_others(map, &known);
        Ok(CreateData { title, kind, size, urgency, labels, parent, causation, description, extra })
    }

    fn to_map(&self) -> (r: JsonMap)
        ensures
            r.meaning() == create_map(self@),
    {
        let mut map = JsonMap::new();
        map.insert("title".to_owned(), JsonValue::Text(self.title.clone()));
        map.insert("kind".to_owned(), JsonValue::Text(self.kind.as_str().to_owned()));
        if let Some(v) = self.size {
            map.insert("size".to_owned(), JsonValue::Text(v.as_str().to_owned()));
        }
        if self.urgency != Urgency::Default {
            map.insert("urgency".to_owned(), JsonValue::Text(self.urgency.as_str().to_owned()));
        }
        if self.labels.len() > 0 {
            map.insert("labels".to_owned(), JsonValue::Array(text_values(&self.labels)));
        }
        if let Some(v) = &self.parent {
            map.insert("parent".to_owned(), JsonValue::Text(v.clone()));
        }
        if let Some(v) = &self.causation {
            map.insert("causation".to_owned(), JsonValue::Text(v.clone()));
        }
        if let Some(v) = &self.description {
            map.insert("description".to_owned(), JsonValue::Text(v.clone()));
        }
        map.extend(&self.extra);
        map
    }
}

/// The entries of an `item.create` payload.
pub open spec fn create_map(d: CreateView) -> Map<Seq<char>, JsonTree> {
    let m = Map::<Seq<char>, JsonTree>::empty();
    let m = m.insert("title"@, JsonTree::Text(d.title));
    let m = m.insert("kind"@, JsonTree::Text(d.kind.name()));
    let m = if d.size is Some {
        m.insert("size"@, JsonTree::Text(d.size->0.name()))
    } else {
        m
    };
    let m = if d.urgency != Urgency::Default {
        m.insert("urgency"@, JsonTree::Text(d.urgency.name()))
    } else {
        m
    };
    let m = if d.labels.len() > 0 {
        m.insert("labels"@, JsonTree::Array(text_trees(d.labels)))
    } else {
        m
    };
    let m = if d.parent is Some {
        m.insert("parent"@, JsonTree::Text(d.parent->0))
    } else {
        m
    };
    let m = if d.causation is Some {
        m.insert("causation"@, JsonTree::Text(d.causation->0))
    } else {
        m
    };
    let m = if d.description is Some {
        m.insert("description"@, JsonTree::Text(d.description->0))
    } else {
        m
    };
    m.union_prefer_right(d.extra)
}

/// The keys that `item.update` knows.
pub open spec fn update_keys() -> Seq<Seq<char>> {
    seq!["field"@, "value"@]
}

/// Reads the payload of `item.update`.
pub open spec fn read_update(m: Map<Seq<char>, JsonTree>) -> Result<UpdateView, Seq<char>> {
    match field_text(m, "field"@) {
        Err(e) => Err(e),
        Ok(field) => 
            match field_json(m, "value"@) {
                Err(e) => Err(e),
                Ok(value) => Ok(UpdateView { field, value, extra: others(m, update_keys()) }),
            },
    }
}

impl UpdateData {
    fn from_map(map: &JsonMap) -> (r: Result<UpdateData, String>)
        ensures
            match r {
                Ok(d) => read_update(map.meaning()) == Ok::<UpdateView, Seq<char>>(d@),
                Err(e) => read_update(map.meaning()) == Err::<UpdateView, Seq<char>>(e@),
            },
    {
        let field = match get_text(map, "field") {
            Ok(v) => v,
            Err(e) => return Err(e),
        };
        let value = match get_json(map, "value") {
            Ok(v) => v,
            Err(e) => return Err(e),
        };
        let known: Vec<&str> = vec!["field", "value"];
        assert(views(known@) =~= update_keys());
        let extra = get_others(map, &known);
        Ok(UpdateData { field, value, extra })
    }

    fn to_map(&self) -> (r: JsonMap)
        ensures
            r.meaning() == update_map(self@),
    {
        let mut map = JsonMap::new();
        map.insert("field".to_owned(), JsonValue::Text(self.field.clone()));
        map.insert("value".to_owned(), self.value.clone());
        map.extend(&self.extra);
        map
    }
}

/// The entries of an `item.update` payload.
pub open spec fn update_map(d: UpdateView) -> Map<Seq<char>, JsonTree> {
    let m = Map::<Seq<char>, JsonTree>::empty();
    let m = m.insert("field"@, JsonTree::Text(d.field));
    let m = m.insert("value"@, d.value);
    m.union_prefer_right(d.extra)
}

/// The keys that `item.move` knows.
pub open spec fn move_keys() -> Seq<Seq<char>> {
    seq!["state"@, "reason"@]
}

/// Reads the payload of `item.move`.
pub open spec fn read_move(m: Map<Seq<char>, JsonTree>) -> Result<MoveView, Seq<char>> {
    match field_state(m, "state"@) {
        Err(e) => Err(e),
        Ok(state) => 
            match field_opt_text(m, "reason"@) {
                Err(e) => Err(e),
                Ok(reason) => Ok(MoveView { state, reason, extra: others(m, move_keys()) }),
            },
    }
}

impl MoveData {
    fn from_map(map: &JsonMap) -> (r: Result<MoveData, String>)
        ensures
            match r {
                Ok(d) => read_move(map.meaning()) == Ok::<MoveView, Seq<char>>(d@),
                Err(e) => read_move(map.meaning()) == Err::<MoveView, Seq<char>>(e@),
            },
    {
        let state = match get_state(map, "state") {
            Ok(v) => v,
            Err(e) => return Err(e),
        };
        let reason = match get_opt_text(map, "reason") {
            Ok(v) => v,
            Err(e) => return Err(e),
        };
        let known: Vec<&str> = vec!["state", "reason"];
        assert(views(known@) =~= move_keys());
        let extra = get_others(map, &known);
        Ok(MoveData { state, reason, extra })
    }

    fn to_map(&self) -> (r: JsonMap)
        ensures
            r.meaning() == move_map(self@),
    {
        let mut map = JsonMap::new();
        map.insert("state".to_owned(), JsonValue::Text(self.state.as_str().to_owned()));
        if let Some(v) = &self.reason {
            map.insert("reason".to_owned(), JsonValue::Text(v.clone()));
        }
        map.extend(&self.extra);
        map
    }
}

/// The entries of an `item.move` payload.
pub open spec fn move_map(d: MoveView) -> Map<Seq<char>, JsonTree> {
    let m = Map::<Seq<char>, JsonTree>::empty();
    let m = m.insert("state"@, JsonTree::Text(d.state.name()));
    let m = if d.reason is Some {
        m.insert("reason"@, JsonTree::Text(d.reason->0))
    } else {
        m
    };
    m.union_prefer_right(d.extra)
}

/// The keys that `item.assign` knows.
pub open spec fn assign_keys() -> Seq<Seq<char>> {
    seq!["agent"@, "action"@]
}

/// Reads the payload of `item.assign`.
pub open spec fn read_assign(m: Map<Seq<char>, JsonTree>) -> Result<AssignView, Seq<char>> {
    match field_text(m, "agent"@) {
        Err(e) => Err(e),
        Ok(agent) => 
            match field_action(m, "action"@) {
                Err(e) => Err(e),
                Ok(action) => Ok(AssignView { agent, action, extra: others(m, assign_keys()) }),
            },
    }
}

impl AssignData {
    fn from_map(map: &JsonMap) -> (r: Result<AssignData, String>)
        ensures
            match r {
                Ok(d) => read_assign(map.meaning()) == Ok::<AssignView, Seq<char>>(d@),
                Err(e) => read_assign(map.meaning()) == Err::<AssignView, Seq<char>>(e@),
            },
    {
        let agent = match get_text(map, "agent") {
            Ok(v) => v,
            Err(e) => return Err(e),
        };
        let action = match get_action(map, "action") {
            Ok(v) => v,
            Err(e) => return Err(e),
        };
        let known: Vec<&str> = vec!["agent", "action"];
        assert(views(known@) =~= assign_keys());
        let extra = get_others(map, &known);
        Ok(AssignData { agent, action, extra })
    }

    fn to_map(&self) -> (r: JsonMap)
        ensures
            r.meaning() == assign_map(self@),
    {
        let mut map = JsonMap::new();
        map.insert("agent".to_owned(), JsonValue::Text(self.agent.clone()));
        map.insert("action".to_owned(), JsonValue::Text(self.action.as_str().to_owned()));
        map.extend(&self.extra);
        map
    }
}

/// The entries of an `item.assign` payload.
pub open spec fn assign_map(d: AssignView) -> Map<Seq<char>, JsonTree> {
    let m = Map::<Seq<char>, JsonTree>::empty();
    let m = m.insert("agent"@, JsonTree::Text(d.agent));
    let m = m.insert("action"@, JsonTree::Text(d.action.name()));
    m.union_prefer_right(d.extra)
}

/// The keys that `item.comment` knows.
pub open spec fn comment_keys() -> Seq<Seq<char>> {
    seq!["body"@]
}

/// Reads the payload of `item.comment`.
pub open spec fn read_comment(m: Map<Seq<char>, JsonTree>) -> Result<CommentView, Seq<char>> {
    match field_text(m, "body"@) {
        Err(e) => Err(e),
        Ok(body) => Ok(CommentView { body, extra: others(m, comment_keys()) }),
    }
}

impl CommentData {
    fn from_map(map: &JsonMap) -> (r: Result<CommentData, String>)
        ensures
            match r {
                Ok(d) => read_comment(map.meaning()) == Ok::<CommentView, Seq<char>>(d@),
                Err(e) => read_comment(map.meaning()) == Err::<CommentView, Seq<char>>(e@),
            },
    {
        let body = match get_text(map, "body") {
            Ok(v) => v,
            Err(e) => return Err(e),
        };
        let known: Vec<&str> = vec!["body"];
        assert(views(known@) =~= comment_keys());
        let extra = get_others(map, &known);
        Ok(CommentData { body, extra })
    }

    fn to_map(&self) -> (r: JsonMap)
        ensures
            r.meaning() == comment_map(self@),
    {
        let mut map = JsonMap::new();
        map.insert("body".to_owned(), JsonValue::Text(self.body.clone()));
        map.extend(&self.extra);
        map
    }
}

/// The entries of an `item.comment` payload.
pub open spec fn comment_map(d: CommentView) -> Map<Seq<char>, JsonTree> {
    let m = Map::<Seq<char>, JsonTree>::empty();
    let m = m.insert("body"@, JsonTree::Text(d.body));
    m.union_prefer_right(d.extra)
}

/// The keys that `item.link` knows.
pub open spec fn link_keys() -> Seq<Seq<char>> {
    seq!["target"@, "link_type"@]
}

/// Reads the payload of `item.link`.
pub open spec fn read_link(m: Map<Seq<char>, JsonTree>) -> Result<LinkView, Seq<char>> {
    match field_text(m, "target"@) {
        Err(e) => Err(e),
        Ok(target) => 
            match field_text(m, "link_type"@) {
                Err(e) => Err(e),
                Ok(link_type) => Ok(LinkView { target, link_type, extra: others(m, link_keys()) }),
            },
    }
}

impl LinkData {
    fn from_map(map: &JsonMap) -> (r: Result<LinkData, String>)
        ensures
            match r {
                Ok(d) => read_link(map.meaning()) == Ok::<LinkView, Seq<char>>(d@),
                Err(e) => read_link(map.meaning()) == Err::<LinkView, Seq<char>>(e@),
            },
    {
        let target = match get_text(map, "target") {
            Ok(v) => v,
            Err(e) => return Err(e),
        };
        let link_type = match get_text(map, "link_type") {
            Ok(v) => v,
            Err(e) => return Err(e),
        };
        let known: Vec<&str> = vec!["target", "link_type"];
        assert(views(known@) =~= link_keys());
        let extra = get_others(map, &known);
        Ok(LinkData { target, link_type, extra })
    }

    fn to_map(&self) -> (r: JsonMap)
        ensures
            r.meaning() == link_map(self@),
    {
        let mut map = JsonMap::new();
        map.insert("target".to_owned(), JsonValue::Text(self.target.clone()));
        map.insert("link_type".to_owned(), JsonValue::Text(self.link_type.clone()));
        map.extend(&self.extra);
        map
    }
}

/// The entries of an `item.link` payload.
pub open spec fn link_map(d: LinkView) -> Map<Seq<char>, JsonTree> {
    let m = Map::<Seq<char>, JsonTree>::empty();
    let m = m.insert("target"@, JsonTree::Text(d.target));
    let m = m.insert("link_type"@, JsonTree::Text(d.link_type));
    m.union_prefer_right(d.extra)
}

/// The keys that `item.unlink` knows.
pub open spec fn unlink_keys() -> Seq<Seq<char>> {
    seq!["target"@, "link_type"@]
}

/// Reads the payload of `item.unlink`.
pub open spec fn read_unlink(m: Map<Seq<char>, JsonTree>) -> Result<UnlinkView, Seq<char>> {
    match field_text(m, "target"@) {
        Err(e) => Err(e),
        Ok(target) => 
            match field_opt_text(m, "link_type"@) {
                Err(e) => Err(e),
                Ok(link_type) => Ok(UnlinkView { target, link_type, extra: others(m, unlink_keys()) }),
            },
    }
}

impl UnlinkData {
    fn from_map(map: &JsonMap) -> (r: Result<UnlinkData, String>)
        ensures
            match r {
                Ok(d) => read_unlink(map.meaning()) == Ok::<UnlinkView, Seq<char>>(d@),
                Err(e) => read_unlink(map.meaning()) == Err::<UnlinkView, Seq<char>>(e@),
            },
    {
        let target = match get_text(map, "target") {
            Ok(v) => v,
            Err(e) => return Err(e),
        };
        let link_type = match get_opt_text(map, "link_type") {
            Ok(v) => v,
            Err(e) => return Err(e),
        };
        let known: Vec<&str> = vec!["target", "link_type"];
        assert(views(known@) =~= unlink_keys());
        let extra = get_others(map, &known);
        Ok(UnlinkData { target, link_type, extra })
    }

    fn to_map(&self) -> (r: JsonMap)
        ensures
            r.meaning() == unlink_map(self@),
    {
        let mut map = JsonMap::new();
        map.insert("target".to_owned(), JsonValue::Text(self.target.clone()));
        if let Some(v) = &self.link_type {
            map.insert("link_type".to_owned(), JsonValue::Text(v.clone()));
        }
        map.extend(&self.extra);
        map
    }
}

/// The entries of an `item.unlink` payload.
pub open spec fn unlink_map(d: UnlinkView) -> Map<Seq<char>, JsonTree> {
    let m = Map::<Seq<char>, JsonTree>::empty();
    let m = m.insert("target"@, JsonTree::Text(d.target));
    let m = if d.link_type is Some {
        m.insert("link_type"@, JsonTree::Text(d.link_type->0))
    } else {
        m
    };
    m.union_prefer_right(d.extra)
}

/// The keys that `item.delete` knows.
pub open spec fn delete_keys() -> Seq<Seq<char>> {
    seq!["reason"@]
}

/// Reads the payload of `item.delete`.
pub open spec fn read_delete(m: Map<Seq<char>, JsonTree>) -> Result<DeleteView, Seq<char>> {
    match field_opt_text(m, "reason"@) {
        Err(e) => Err(e),
        Ok(reason) => Ok(DeleteView { reason, extra: others(m, delete_keys()) }),
    }
}

impl DeleteData {
    fn from_map(map: &JsonMap) -> (r: Result<DeleteData, String>)
        ensures
            match r {
                Ok(d) => read_delete(map.meaning()) == Ok::<DeleteView, Seq<char>>(d@),
                Err(e) => read_delete(map.meaning()) == Err::<DeleteView, Seq<char>>(e@),
            },
    {
        let reason = match get_opt_text(map, "reason") {
            Ok(v) => v,
            Err(e) => return Err(e),
        };
        let known: Vec<&str> = vec!["reason"];
        assert(views(known@) =~= delete_keys());
        let extra = get_others(map, &known);
        Ok(DeleteData { reason, extra })
    }

    fn to_map(&self) -> (r: JsonMap)
        ensures
            r.meaning() == delete_map(self@),
    {
        let mut map = JsonMap::new();
        if let Some(v) = &self.reason {
            map.insert("reason".to_owned(), JsonValue::Text(v.clone()));
        }
        map.extend(&self.extra);
        map
    }
}

/// The entries of an `item.delete` payload.
pub open spec fn delete_map(d: DeleteView) -> Map<Seq<char>, JsonTree> {
    let m = Map::<Seq<char>, JsonTree>::empty();
    let m = if d.reason is Some {
        m.insert("reason"@, JsonTree::Text(d.reason->0))
    } else {
        m
    };
    m.union_prefer_right(d.extra)
}

/// The keys that `item.compact` knows.
pub open spec fn compact_keys() -> Seq<Seq<char>> {
    seq!["summary"@]
}

/// Reads the payload of `item.compact`.
pub open spec fn read_compact(m: Map<Seq<char>, JsonTree>) -> Result<CompactView, Seq<char>> {
    match field_text(m, "summary"@) {
        Err(e) => Err(e),
        Ok(summary) => Ok(CompactView { summary, extra: others(m, compact_keys()) }),
    }
}

impl CompactData {
    fn from_map(map: &JsonMap) -> (r: Result<CompactData, String>)
        ensures
            match r {
                Ok(d) => read_compact(map.meaning()) == Ok::<CompactView, Seq<char>>(d@),
                Err(e) => read_compact(map.meaning()) == Err::<CompactView, Seq<char>>(e@),
            },
    {
        let summary = match get_text(map, "summary") {
            Ok(v) => v,
            Err(e) => return Err(e),
        };
        let known: Vec<&str> = vec!["summary"];
        assert(views(known@) =~= compact_keys());
        let extra = get_others(map, &known);
        Ok(CompactData { summary, extra })
    }

    fn to_map(&self) -> (r: JsonMap)
        ensures
            r.meaning() == compact_map(self@),
    {
        let mut map = JsonMap::new();
        map.insert("summary".to_owned(), JsonValue::Text(self.summary.clone()));
        map.extend(&self.extra);
        map
    }
}

/// The entries of an `item.compact` payload.
pub open spec fn compact_map(d: CompactView) -> Map<Seq<char>, JsonTree> {
    let m = Map::<Seq<char>, JsonTree>::empty();
    let m = m.insert("summary"@, JsonTree::Text(d.summary));
    m.union_prefer_right(d.extra)
}

/// The keys that `item.snapshot` knows.
pub open spec fn snapshot_keys() -> Seq<Seq<char>> {
    seq!["state"@]
}

/// Reads the payload of `item.snapshot`.
pub open spec fn read_snapshot(m: Map<Seq<char>, JsonTree>) -> Result<SnapshotView, Seq<char>> {
    match field_json(m, "state"@) {
        Err(e) => Err(e),
        Ok(state) => Ok(SnapshotView { state, extra: others(m, snapshot_keys()) }),
    }
}

impl SnapshotData {
    fn from_map(map: &JsonMap) -> (r: Result<SnapshotData, String>)
        ensures
            match r {
                Ok(d) => read_snapshot(map.meaning()) == Ok::<SnapshotView, Seq<char>>(d@),
                Err(e) => read_snapshot(map.meaning()) == Err::<SnapshotView, Seq<char>>(e@),
            },
    {
        let state = match get_json(map, "state") {
            Ok(v) => v,
            Err(e) => return Err(e),
        };
        let known: Vec<&str> = vec!["state"];
        assert(views(known@) =~= snapshot_keys());
        let extra = get_others(map, &known);
        Ok(SnapshotData { state, extra })
    }

    fn to_map(&self) -> (r: JsonMap)
        ensures
            r.meaning() == snapshot_map(self@),
    {
        let mut map = JsonMap::new();
        map.insert("state".to_owned(), self.state.clone());
        map.extend(&self.extra);
        map
    }
}

/// The entries of an `item.snapshot` payload.
pub open spec fn snapshot_map(d: SnapshotView) -> Map<Seq<char>, JsonTree> {
    let m = Map::<Seq<char>, JsonTree>::empty();
    let m = m.insert("state"@, d.state);
    m.union_prefer_right(d.extra)
}

/// The keys that `item.redact` knows.
pub open spec fn redact_keys() -> Seq<Seq<char>> {
    seq!["target_hash"@, "reason"@]
}

/// Reads the payload of `item.redact`.
pub open spec fn read_redact(m: Map<Seq<char>, JsonTree>) -> Result<RedactView, Seq<char>> {
    match field_text(m, "target_hash"@) {
        Err(e) => Err(e),
        Ok(target_hash) => 
            match field_text(m, "reason"@) {
                Err(e) => Err(e),
                Ok(reason) => Ok(RedactView { target_hash, reason, extra: others(m, redact_keys()) }),
            },
    }
}

impl RedactData {
    fn from_map(map: &JsonMap) -> (r: Result<RedactData, String>)
        ensures
            match r {
                Ok(d) => read_redact(map.meaning()) == Ok::<RedactView, Seq<char>>(d@),
                Err(e) => read_redact(map.meaning()) == Err::<RedactView, Seq<char>>(e@),
            },
    {
        let target_hash = match get_text(map, "target_hash") {
            Ok(v) => v,
            Err(e) => return Err(e),
        };
        let reason = match get_text(map, "reason") {
            Ok(v) => v,
            Err(e) => return Err(e),
        };
        let known: Vec<&str> = vec!["target_hash", "reason"];
        assert(views(known@) =~= redact_keys());
        let extra = get_others(map, &known);
        Ok(RedactData { target_hash, reason, extra })
    }

    fn to_map(&self) -> (r: JsonMap)
        ensures
            r.meaning() == redact_map(self@),
    {
        let mut map = JsonMap::new();
        map.insert("target_hash".to_owned(), JsonValue::Text(self.target_hash.clone()));
        map.insert("reason".to_owned(), JsonValue::Text(self.reason.clone()));
        map.extend(&self.extra);
        map
    }
}

/// The entries of an `item.redact` payload.
pub open spec fn redact_map(d: RedactView) -> Map<Seq<char>, JsonTree> {
    let m = Map::<Seq<char>, JsonTree>::empty();
    let m = m.insert("target_hash"@, JsonTree::Text(d.target_hash));
    let m = m.insert("reason"@, JsonTree::Text(d.reason));
    m.union_prefer_right(d.extra)
}

/// Reads the payload of an event type.
pub open spec fn read_payload(event_type: EventType, t: JsonTree) -> Result<Payload, Seq<char>> {
    match t {
        JsonTree::Object(m) => match event_type {
            EventType::Create => match read_create(m) {
                Ok(d) => Ok(Payload::Create(d)),
                Err(e) => Err(e),
            },
            EventType::Update => match read_update(m) {
                Ok(d) => Ok(Payload::Update(d)),
                Err(e) => Err(e),
            },
            EventType::Move => match read_move(m) {
                Ok(d) => Ok(Payload::Move(d)),
                Err(e) => Err(e),
            },
            EventType::Assign => match read_assign(m) {
                Ok(d) => Ok(Payload::Assign(d)),
                Err(e) => Err(e),
            },
            EventType::Comment => match read_comment(m) {
                Ok(d) => Ok(Payload::Comment(d)),
                Err(e) => Err(e),
            },
            EventType::Link => match read_link(m) {
                Ok(d) => Ok(Payload::Link(d)),
                Err(e) => Err(e),
            },
            EventType::Unlink => match read_unlink(m) {
                Ok(d) => Ok(Payload::Unlink(d)),
                Err(e) => Err(e),
            },
            EventType::Delete => match read_delete(m) {
                Ok(d) => Ok(Payload::Delete(d)),
                Err(e) => Err(e),
            },
            EventType::Compact => match read_compact(m) {
                Ok(d) => Ok(Payload::Compact(d)),
                Err(e) => Err(e),
            },
            EventType::Snapshot => match read_snapshot(m) {
                Ok(d) => Ok(Payload::Snapshot(d)),
                Err(e) => Err(e),
            },
            EventType::Redact => match read_redact(m) {
                Ok(d) => Ok(Payload::Redact(d)),
                Err(e) => Err(e),
            },
        },
        _ => Err("invalid type: expected a map"@),
    }
}

/// The keys that an event type knows.
pub open spec fn keys_of(event_type: EventType) -> Seq<Seq<char>> {
    match event_type {
        EventType::Create => create_keys(),
        EventType::Update => update_keys(),
        EventType::Move => move_keys(),
        EventType::Assign => assign_keys(),
        EventType::Comment => comment_keys(),
        EventType::Link => link_keys(),
        EventType::Unlink => unlink_keys(),
        EventType::Delete => delete_keys(),
        EventType::Compact => compact_keys(),
        EventType::Snapshot => snapshot_keys(),
        EventType::Redact => redact_keys(),
    }
}

/// The keys that an event type knows under which a variant stands.
pub open spec fn variant_keys(event_type: EventType) -> Seq<Seq<char>> {
    match event_type {
        EventType::Create => seq!["kind"@, "size"@, "urgency"@],
        EventType::Move => seq!["state"@],
        EventType::Assign => seq!["action"@],
        _ => Seq::empty(),
    }
}

/// Reads the payload of an event type, given the outline of its text.
pub open spec fn read_outlined(
    event_type: EventType,
    t: JsonTree,
    outline: Seq<(Seq<char>, nat)>,
) -> Result<Payload, Seq<char>> {
    match flaw(keys_of(event_type), variant_keys(event_type), outline) {
        Some(e) => Err(e),
        None => read_payload(event_type, t),
    }
}

/// The keys that an event type knows.
fn keys_known(event_type: EventType) -> (r: Vec<&'static str>)
    ensures
        views(r@) == keys_of(event_type),
{
    let r: Vec<&'static str> = match event_type {
        EventType::Create => vec![
            "title",
            "kind",
            "size",
            "urgency",
            "labels",
            "parent",
            "causation",
            "description",
        ],
        EventType::Update => vec!["field", "value"],
        EventType::Move => vec!["state", "reason"],
        EventType::Assign => vec!["agent", "action"],
        EventType::Comment => vec!["body"],
        EventType::Link => vec!["target", "link_type"],
        EventType::Unlink => vec!["target", "link_type"],
        EventType::Delete => vec!["reason"],
        EventType::Compact => vec!["summary"],
        EventType::Snapshot => vec!["state"],
        EventType::Redact => vec!["target_hash", "reason"],
    };
    assert(views(r@) =~= keys_of(event_type));
    r
}

/// The keys that an event type knows under which a variant stands.
fn variants_known(event_type: EventType) -> (r: Vec<&'static str>)
    ensures
        views(r@) == variant_keys(event_type),
{
    let r: Vec<&'static str> = match event_type {
        EventType::Create => vec!["kind", "size", "urgency"],
        EventType::Move => vec!["state"],
        EventType::Assign => vec!["action"],
        _ => Vec::new(),
    };
    assert(views(r@) =~= variant_keys(event_type));
    r
}

/// The canonical text of a payload that can be read has no flaw in its outline.
pub proof fn readable_payload_has_no_flaw(event_type: EventType, t: JsonTree)
    requires
        read_payload(event_type, t) is Ok,
        t matches JsonTree::Object(m) ==> m.dom().finite(),
    ensures
        flaw(keys_of(event_type), variant_keys(event_type), outline_of(t)) is None,
{
    let map = t->Object_0;
    let known = keys_of(event_type);
    let variants = variant_keys(event_type);
    keys_are_in_order(map);
    assert forall|k: Seq<char>| #[trigger] variants.contains(k) && map.contains_key(k) implies
        size_of_value(map[k]) <= 1 by {
        let i = choose|i: int| 0 <= i < variants.len() && variants[i] == k;
        assert(i == 0 || i == 1 || i == 2);
    }
    lemma_no_flaw(map, known, variants, key_order(map).len() as int);
    assert(outline_of(t).take(key_order(map).len() as int) =~= outline_of(t));
}

proof fn lemma_no_flaw(
    map: Map<Seq<char>, JsonTree>,
    known: Seq<Seq<char>>,
    variants: Seq<Seq<char>>,
    n: int,
)
    requires
        0 <= n <= key_order(map).len(),
        ascending(key_order(map)),
        key_order(map).to_set() == map.dom(),
        forall|k: Seq<char>| #[trigger]
            variants.contains(k) && map.contains_key(k) ==> size_of_value(map[k]) <= 1,
    ensures
        flaw(known, variants, outline_of(JsonTree::Object(map)).take(n)) is None,
    decreases n,
{
    if n > 0 {
        let all = outline_of(JsonTree::Object(map));
        let keys = key_order(map);
        let key = keys[n - 1];
        lemma_no_flaw(map, known, variants, n - 1);
        assert(all.take(n).drop_last() =~= all.take(n - 1));
        assert(all.take(n).last() == (key, size_of_value(map[key])));
        assert(keys.to_set().contains(key));
        let earlier = outline_keys(all.take(n - 1));
        if earlier.contains(key) {
            let i = choose|i: int| 0 <= i < earlier.len() && earlier[i] == key;
            assert(earlier[i] == keys[i]);
            assert(lex_lt(keys[i], keys[n - 1]));
            lex_lt_irreflexive(key);
        }
    }
}

impl Payload {
    /// The payload as a JSON object.
    pub open spec fn tree(self) -> JsonTree {
        JsonTree::Object(
            match self {
                Payload::Create(d) => create_map(d),
                Payload::Update(d) => update_map(d),
                Payload::Move(d) => move_map(d),
                Payload::Assign(d) => assign_map(d),
                Payload::Comment(d) => comment_map(d),
                Payload::Link(d) => link_map(d),
                Payload::Unlink(d) => unlink_map(d),
                Payload::Delete(d) => delete_map(d),
                Payload::Compact(d) => compact_map(d),
                Payload::Snapshot(d) => snapshot_map(d),
                Payload::Redact(d) => redact_map(d),
            },
        )
    }

    /// The keys that the event type knows.
    pub open spec fn known_keys(self) -> Seq<Seq<char>> {
        keys_of(self.event_type())
    }

    /// Whether the entries under unknown keys stay clear of the known ones.
    pub open spec fn separate(self) -> bool {
        forall|k: Seq<char>| #[trigger] self.extra().contains_key(k) ==> !self.known_keys().contains(k)
    }
}

impl EventData {
    /// Reads the payload of an event type from a JSON value.
    pub fn from_json_value(event_type: EventType, value: &JsonValue) -> (r: Result<
        EventData,
        DataParseError,
    >)
        ensures
            match r {
                Ok(d) => read_payload(event_type, value.tree()) == Ok::<Payload, Seq<char>>(d@),
                Err(e) => e.event_type == event_type && read_payload(event_type, value.tree())
                    == Err::<Payload, Seq<char>>(e.source@),
            },
    {
        let map = match value.as_object() {
            Some(map) => map,
            None => return Err(
                DataParseError { event_type, source: "invalid type: expected a map".to_owned() },
            ),
        };
        let source = match event_type {
            EventType::Create => match CreateData::from_map(map) {
                Ok(d) => return Ok(EventData::Create(d)),
                Err(e) => e,
            },
            EventType::Update => match UpdateData::from_map(map) {
                Ok(d) => return Ok(EventData::Update(d)),
                Err(e) => e,
            },
            EventType::Move => match MoveData::from_map(map) {
                Ok(d) => return Ok(EventData::Move(d)),
                Err(e) => e,
            },
            EventType::Assign => match AssignData::from_map(map) {
                Ok(d) => return Ok(EventData::Assign(d)),
                Err(e) => e,
            },
            EventType::Comment => match CommentData::from_map(map) {
                Ok(d) => return Ok(EventData::Comment(d)),
                Err(e) => e,
            },
            EventType::Link => match LinkData::from_map(map) {
                Ok(d) => return Ok(EventData::Link(d)),
                Err(e) => e,
            },
            EventType::Unlink => match UnlinkData::from_map(map) {
                Ok(d) => return Ok(EventData::Unlink(d)),
                Err(e) => e,
            },
            EventType::Delete => match DeleteData::from_map(map) {
                Ok(d) => return Ok(EventData::Delete(d)),
                Err(e) => e,
            },
            EventType::Compact => match CompactData::from_map(map) {
                Ok(d) => return Ok(EventData::Compact(d)),
                Err(e) => e,
            },
            EventType::Snapshot => match SnapshotData::from_map(map) {
                Ok(d) => return Ok(EventData::Snapshot(d)),
                Err(e) => e,
            },
            EventType::Redact => match RedactData::from_map(map) {
                Ok(d) => return Ok(EventData::Redact(d)),
                Err(e) => e,
            },
        };
        Err(DataParseError { event_type, source })
    }

    /// Reads the payload of an event type from a JSON value, given the outline of the
    /// text that it was read from.
    pub fn from_outlined(
        event_type: EventType,
        value: &JsonValue,
        outline: &Vec<(String, usize)>,
    ) -> (r: Result<EventData, DataParseError>)
        ensures
            match r {
                Ok(d) => read_outlined(event_type, value.tree(), outline_view(outline@)) == Ok::<
                    Payload,
                    Seq<char>,
                >(d@),
                Err(e) => e.event_type == event_type && read_outlined(
                    event_type,
                    value.tree(),
                    outline_view(outline@),
                ) == Err::<Payload, Seq<char>>(e.source@),
            },
    {
        match find_flaw(&keys_known(event_type), &variants_known(event_type), outline) {
            Some(source) => Err(DataParseError { event_type, source }),
            None => EventData::from_json_value(event_type, value),
        }
    }

    /// Reads the payload of an event type from a JSON text.
    ///
    /// The event type comes from elsewhere: the payload does not name it. A known key
    /// must not stand in the payload twice; of an unknown one the last value is kept.
    /// What is wrong with a payload that does not fit is explained in this library's
    /// own words, without a place in the text.
    pub fn deserialize_for(event_type: EventType, json: &str) -> (r: Result<Self, DataParseError>)
        ensures
            match r {
                Ok(d) => parsed_json(json@) is Some && read_outlined(
                    event_type,
                    parsed_json(json@)->0,
                    outline_in(json@),
                ) == Ok::<Payload, Seq<char>>(d@),
                Err(e) => e.event_type == event_type && match parsed_json(json@) {
                    Some(t) => read_outlined(event_type, t, outline_in(json@)) == Err::<
                        Payload,
                        Seq<char>,
                    >(e.source@),
                    None => e.source@ == json_error(json@),
                },
            },
            forall|t: JsonTree|
                plain(t, depth_limit()) && json@ == #[trigger] canonical_text(t) ==> match r {
                    Ok(d) => read_payload(event_type, t) == Ok::<Payload, Seq<char>>(d@),
                    Err(e) => read_payload(event_type, t) is Err && read_outlined(
                        event_type,
                        t,
                        outline_of(t),
                    ) == Err::<Payload, Seq<char>>(e.source@),
                },
    {
        proof {
            assert forall|t: JsonTree|
                plain(t, depth_limit()) && json@ == #[trigger] canonical_text(t) && read_payload(
                    event_type,
                    t,
                ) is Ok implies read_outlined(event_type, t, outline_of(t)) == read_payload(
                event_type,
                t,
            ) by {
                readable_payload_has_no_flaw(event_type, t);
            }
        }
        match parse_json(json) {
            Ok(value) => EventData::from_outlined(event_type, &value, &outline(json)),
            Err(source) => Err(DataParseError { event_type, source }),
        }
    }

    /// The payload as a JSON value.
    pub fn to_json_value(&self) -> (r: Result<JsonValue, String>)
        ensures
            r is Ok,
            r->Ok_0.tree() == self@.tree(),
    {
        Ok(
            JsonValue::Object(
                match self {
                    EventData::Create(d) => d.to_map(),
                    EventData::Update(d) => d.to_map(),
                    EventData::Move(d) => d.to_map(),
                    EventData::Assign(d) => d.to_map(),
                    EventData::Comment(d) => d.to_map(),
                    EventData::Link(d) => d.to_map(),
                    EventData::Unlink(d) => d.to_map(),
                    EventData::Delete(d) => d.to_map(),
                    EventData::Compact(d) => d.to_map(),
                    EventData::Snapshot(d) => d.to_map(),
                    EventData::Redact(d) => d.to_map(),
                },
            ),
        )
    }
}

proof fn lemma_create_keys()
    ensures
        "title"@ != "kind"@,
        "title"@ != "size"@,
        "title"@ != "urgency"@,
        "title"@ != "labels"@,
        "title"@ != "parent"@,
        "title"@ != "causation"@,
        "title"@ != "description"@,
        "kind"@ != "size"@,
        "kind"@ != "urgency"@,
        "kind"@ != "labels"@,
        "kind"@ != "parent"@,
        "kind"@ != "causation"@,
        "kind"@ != "description"@,
        "size"@ != "urgency"@,
        "size"@ != "labels"@,
        "size"@ != "parent"@,
        "size"@ != "causation"@,
        "size"@ != "description"@,
        "urgency"@ != "labels"@,
        "urgency"@ != "parent"@,
        "urgency"@ != "causation"@,
        "urgency"@ != "description"@,
        "labels"@ != "parent"@,
        "labels"@ != "causation"@,
        "labels"@ != "description"@,
        "parent"@ != "causation"@,
        "parent"@ != "description"@,
        "causation"@ != "description"@,
        create_keys()[0] == "title"@,
        create_keys()[1] == "kind"@,
        create_keys()[2] == "size"@,
        create_keys()[3] == "urgency"@,
        create_keys()[4] == "labels"@,
        create_keys()[5] == "parent"@,
        create_keys()[6] == "causation"@,
        create_keys()[7] == "description"@,
        create_keys().len() == 8,
{
    reveal_strlit("title");
    reveal_strlit("kind");
    reveal_strlit("size");
    reveal_strlit("urgency");
    reveal_strlit("labels");
    reveal_strlit("parent");
    reveal_strlit("causation");
    reveal_strlit("description");
    assert("title"@.len() != "kind"@.len());
    assert("title"@.len() != "size"@.len());
    assert("title"@.len() != "urgency"@.len());
    assert("title"@.len() != "labels"@.len());
    assert("title"@.len() != "parent"@.len());
    assert("title"@.len() != "causation"@.len());
    assert("title"@.len() != "description"@.len());
    assert("kind"@[0] != "size"@[0]);
    assert("kind"@.len() != "urgency"@.len());
    assert("kind"@.len() != "labels"@.len());
    assert("kind"@.len() != "parent"@.len());
    assert("kind"@.len() != "causation"@.len());
    assert("kind"@.len() != "description"@.len());
    assert("size"@.len() != "urgency"@.len());
    assert("size"@.len() != "labels"@.len());
    assert("size"@.len() != "parent"@.len());
    assert("size"@.len() != "causation"@.len());
    assert("size"@.len() != "description"@.len());
    assert("urgency"@.len() != "labels"@.len());
    assert("urgency"@.len() != "parent"@.len());
    assert("urgency"@.len() != "causation"@.len());
    assert("urgency"@.len() != "description"@.len());
    assert("labels"@[0] != "parent"@[0]);
    assert("labels"@.len() != "causation"@.len());
    assert("labels"@.len() != "description"@.len());
    assert("parent"@.len() != "causation"@.len());
    assert("parent"@.len() != "description"@.len());
    assert("causation"@.len() != "description"@.len());
}

proof fn lemma_create_reads_back(d: CreateView)
    requires
        Payload::Create(d).separate(),
    ensures
        read_create(create_map(d)) == Ok::<CreateView, Seq<char>>(d),
{
    lemma_create_keys();
    let p = Payload::Create(d);
    let m = create_map(d);
    assert(p.extra() == d.extra);
    assert(p.known_keys() == create_keys());
    assert(create_keys().contains(create_keys()[0]));
    assert(!d.extra.contains_key("title"@));
    assert(create_keys().contains(create_keys()[1]));
    assert(!d.extra.contains_key("kind"@));
    assert(create_keys().contains(create_keys()[2]));
    assert(!d.extra.contains_key("size"@));
    assert(create_keys().contains(create_keys()[3]));
    assert(!d.extra.contains_key("urgency"@));
    assert(create_keys().contains(create_keys()[4]));
    assert(!d.extra.contains_key("labels"@));
    assert(create_keys().contains(create_keys()[5]));
    assert(!d.extra.contains_key("parent"@));
    assert(create_keys().contains(create_keys()[6]));
    assert(!d.extra.contains_key("causation"@));
    assert(create_keys().contains(create_keys()[7]));
    assert(!d.extra.contains_key("description"@));
    d.kind.name_reads_back();
    if d.size is Some {
        d.size->0.name_reads_back();
    }
    d.urgency.name_reads_back();
    assert(texts_in(text_trees(d.labels)) =~= d.labels);
    assert(d.labels.len() == 0 ==> d.labels =~= Seq::<Seq<char>>::empty());
    assert(field_text(m, "title"@) == Ok::<Seq<char>, Seq<char>>(d.title));
    assert(field_kind(m, "kind"@) == Ok::<Kind, Seq<char>>(d.kind));
    assert(field_opt_size(m, "size"@) == Ok::<Option<Size>, Seq<char>>(d.size));
    assert(field_urgency_or_default(m, "urgency"@) == Ok::<Urgency, Seq<char>>(d.urgency));
    assert(field_texts(m, "labels"@) == Ok::<Seq<Seq<char>>, Seq<char>>(d.labels));
    assert(field_opt_text(m, "parent"@) == Ok::<Option<Seq<char>>, Seq<char>>(d.parent));
    assert(field_opt_text(m, "causation"@) == Ok::<Option<Seq<char>>, Seq<char>>(d.causation));
    assert(field_opt_text(m, "description"@) == Ok::<Option<Seq<char>>, Seq<char>>(d.description));
    assert(others(m, create_keys()) =~= d.extra) by {
        assert forall|k: Seq<char>| #[trigger] m.contains_key(k) && !create_keys().contains(
            k,
        ) implies d.extra.contains_key(k) by {
            assert(k != create_keys()[0]);
            assert(k != create_keys()[1]);
            assert(k != create_keys()[2]);
            assert(k != create_keys()[3]);
            assert(k != create_keys()[4]);
            assert(k != create_keys()[5]);
            assert(k != create_keys()[6]);
            assert(k != create_keys()[7]);
        }
    }
}

proof fn lemma_update_keys()
    ensures
        "field"@ != "value"@,
        update_keys()[0] == "field"@,
        update_keys()[1] == "value"@,
        update_keys().len() == 2,
{
    reveal_strlit("field");
    reveal_strlit("value");
    assert("field"@[0] != "value"@[0]);
}

proof fn lemma_update_reads_back(d: UpdateView)
    requires
        Payload::Update(d).separate(),
    ensures
        read_update(update_map(d)) == Ok::<UpdateView, Seq<char>>(d),
{
    lemma_update_keys();
    let p = Payload::Update(d);
    let m = update_map(d);
    assert(p.extra() == d.extra);
    assert(p.known_keys() == update_keys());
    assert(update_keys().contains(update_keys()[0]));
    assert(!d.extra.contains_key("field"@));
    assert(update_keys().contains(update_keys()[1]));
    assert(!d.extra.contains_key("value"@));
    assert(field_text(m, "field"@) == Ok::<Seq<char>, Seq<char>>(d.field));
    assert(field_json(m, "value"@) == Ok::<JsonTree, Seq<char>>(d.value));
    assert(others(m, update_keys()) =~= d.extra) by {
        assert forall|k: Seq<char>| #[trigger] m.contains_key(k) && !update_keys().contains(
            k,
        ) implies d.extra.contains_key(k) by {
            assert(k != update_keys()[0]);
            assert(k != update_keys()[1]);
        }
    }
}

proof fn lemma_move_keys()
    ensures
        "state"@ != "reason"@,
        move_keys()[0] == "state"@,
        move_keys()[1] == "reason"@,
        move_keys().len() == 2,
{
    reveal_strlit("state");
    reveal_strlit("reason");
    assert("state"@.len() != "reason"@.len());
}

proof fn lemma_move_reads_back(d: MoveView)
    requires
        Payload::Move(d).separate(),
    ensures
        read_move(move_map(d)) == Ok::<MoveView, Seq<char>>(d),
{
    lemma_move_keys();
    let p = Payload::Move(d);
    let m = move_map(d);
    assert(p.extra() == d.extra);
    assert(p.known_keys() == move_keys());
    assert(move_keys().contains(move_keys()[0]));
    assert(!d.extra.contains_key("state"@));
    assert(move_keys().contains(move_keys()[1]));
    assert(!d.extra.contains_key("reason"@));
    d.state.name_reads_back();
    assert(field_state(m, "state"@) == Ok::<State, Seq<char>>(d.state));
    assert(field_opt_text(m, "reason"@) == Ok::<Option<Seq<char>>, Seq<char>>(d.reason));
    assert(others(m, move_keys()) =~= d.extra) by {
        assert forall|k: Seq<char>| #[trigger] m.contains_key(k) && !move_keys().contains(
            k,
        ) implies d.extra.contains_key(k) by {
            assert(k != move_keys()[0]);
            assert(k != move_keys()[1]);
        }
    }
}

proof fn lemma_assign_keys()
    ensures
        "agent"@ != "action"@,
        assign_keys()[0] == "agent"@,
        assign_keys()[1] == "action"@,
        assign_keys().len() == 2,
{
    reveal_strlit("agent");
    reveal_strlit("action");
    assert("agent"@.len() != "action"@.len());
}

proof fn lemma_assign_reads_back(d: AssignView)
    requires
        Payload::Assign(d).separate(),
    ensures
        read_assign(assign_map(d)) == Ok::<AssignView, Seq<char>>(d),
{
    lemma_assign_keys();
    let p = Payload::Assign(d);
    let m = assign_map(d);
    assert(p.extra() == d.extra);
    assert(p.known_keys() == assign_keys());
    assert(assign_keys().contains(assign_keys()[0]));
    assert(!d.extra.contains_key("agent"@));
    assert(assign_keys().contains(assign_keys()[1]));
    assert(!d.extra.contains_key("action"@));
    d.action.name_reads_back();
    assert(field_text(m, "agent"@) == Ok::<Seq<char>, Seq<char>>(d.agent));
    assert(field_action(m, "action"@) == Ok::<AssignAction, Seq<char>>(d.action));
    assert(others(m, assign_keys()) =~= d.extra) by {
        assert forall|k: Seq<char>| #[trigger] m.contains_key(k) && !assign_keys().contains(
            k,
        ) implies d.extra.contains_key(k) by {
            assert(k != assign_keys()[0]);
            assert(k != assign_keys()[1]);
        }
    }
}

proof fn lemma_comment_keys()
    ensures
        comment_keys()[0] == "body"@,
        comment_keys().len() == 1,
{
}

proof fn lemma_comment_reads_back(d: CommentView)
    requires
        Payload::Comment(d).separate(),
    ensures
        read_comment(comment_map(d)) == Ok::<CommentView, Seq<char>>(d),
{
    lemma_comment_keys();
    let p = Payload::Comment(d);
    let m = comment_map(d);
    assert(p.extra() == d.extra);
    assert(p.known_keys() == comment_keys());
    assert(comment_keys().contains(comment_keys()[0]));
    assert(!d.extra.contains_key("body"@));
    assert(field_text(m, "body"@) == Ok::<Seq<char>, Seq<char>>(d.body));
    assert(others(m, comment_keys()) =~= d.extra) by {
        assert forall|k: Seq<char>| #[trigger] m.contains_key(k) && !comment_keys().contains(
            k,
        ) implies d.extra.contains_key(k) by {
            assert(k != comment_keys()[0]);
        }
    }
}

proof fn lemma_link_keys()
    ensures
        "target"@ != "link_type"@,
        link_keys()[0] == "target"@,
        link_keys()[1] == "link_type"@,
        link_keys().len() == 2,
{
    reveal_strlit("target");
    reveal_strlit("link_type");
    assert("target"@.len() != "link_type"@.len());
}

proof fn lemma_link_reads_back(d: LinkView)
    requires
        Payload::Link(d).separate(),
    ensures
        read_link(link_map(d)) == Ok::<LinkView, Seq<char>>(d),
{
    lemma_link_keys();
    let p = Payload::Link(d);
    let m = link_map(d);
    assert(p.extra() == d.extra);
    assert(p.known_keys() == link_keys());
    assert(link_keys().contains(link_keys()[0]));
    assert(!d.extra.contains_key("target"@));
    assert(link_keys().contains(link_keys()[1]));
    assert(!d.extra.contains_key("link_type"@));
    assert(field_text(m, "target"@) == Ok::<Seq<char>, Seq<char>>(d.target));
    assert(field_text(m, "link_type"@) == Ok::<Seq<char>, Seq<char>>(d.link_type));
    assert(others(m, link_keys()) =~= d.extra) by {
        assert forall|k: Seq<char>| #[trigger] m.contains_key(k) && !link_keys().contains(
            k,
        ) implies d.extra.contains_key(k) by {
            assert(k != link_keys()[0]);
            assert(k != link_keys()[1]);
        }
    }
}

proof fn lemma_unlink_keys()
    ensures
        "target"@ != "link_type"@,
        unlink_keys()[0] == "target"@,
        unlink_keys()[1] == "link_type"@,
        unlink_keys().len() == 2,
{
    reveal_strlit("target");
    reveal_strlit("link_type");
    assert("target"@.len() != "link_type"@.len());
}

proof fn lemma_unlink_reads_back(d: UnlinkView)
    requires
        Payload::Unlink(d).separate(),
    ensures
        read_unlink(unlink_map(d)) == Ok::<UnlinkView, Seq<char>>(d),
{
    lemma_unlink_keys();
    let p = Payload::Unlink(d);
    let m = unlink_map(d);
    assert(p.extra() == d.extra);
    assert(p.known_keys() == unlink_keys());
    assert(unlink_keys().contains(unlink_keys()[0]));
    assert(!d.extra.contains_key("target"@));
    assert(unlink_keys().contains(unlink_keys()[1]));
    assert(!d.extra.contains_key("link_type"@));
    assert(field_text(m, "target"@) == Ok::<Seq<char>, Seq<char>>(d.target));
    assert(field_opt_text(m, "link_type"@) == Ok::<Option<Seq<char>>, Seq<char>>(d.link_type));
    assert(others(m, unlink_keys()) =~= d.extra) by {
        assert forall|k: Seq<char>| #[trigger] m.contains_key(k) && !unlink_keys().contains(
            k,
        ) implies d.extra.contains_key(k) by {
            assert(k != unlink_keys()[0]);
            assert(k != unlink_keys()[1]);
        }
    }
}

proof fn lemma_delete_keys()
    ensures
        delete_keys()[0] == "reason"@,
        delete_keys().len() == 1,
{
}

proof fn lemma_delete_reads_back(d: DeleteView)
    requires
        Payload::Delete(d).separate(),
    ensures
        read_delete(delete_map(d)) == Ok::<DeleteView, Seq<char>>(d),
{
    lemma_delete_keys();
    let p = Payload::Delete(d);
    let m = delete_map(d);
    assert(p.extra() == d.extra);
    assert(p.known_keys() == delete_keys());
    assert(delete_keys().contains(delete_keys()[0]));
    assert(!d.extra.contains_key("reason"@));
    assert(field_opt_text(m, "reason"@) == Ok::<Option<Seq<char>>, Seq<char>>(d.reason));
    assert(others(m, delete_keys()) =~= d.extra) by {
        assert forall|k: Seq<char>| #[trigger] m.contains_key(k) && !delete_keys().contains(
            k,
        ) implies d.extra.contains_key(k) by {
            assert(k != delete_keys()[0]);
        }
    }
}

proof fn lemma_compact_keys()
    ensures
        compact_keys()[0] == "summary"@,
        compact_keys().len() == 1,
{
}

proof fn lemma_compact_reads_back(d: CompactView)
    requires
        Payload::Compact(d).separate(),
    ensures
        read_compact(compact_map(d)) == Ok::<CompactView, Seq<char>>(d),
{
    lemma_compact_keys();
    let p = Payload::Compact(d);
    let m = compact_map(d);
    assert(p.extra() == d.extra);
    assert(p.known_keys() == compact_keys());
    assert(compact_keys().contains(compact_keys()[0]));
    assert(!d.extra.contains_key("summary"@));
    assert(field_text(m, "summary"@) == Ok::<Seq<char>, Seq<char>>(d.summary));
    assert(others(m, compact_keys()) =~= d.extra) by {
        assert forall|k: Seq<char>| #[trigger] m.contains_key(k) && !compact_keys().contains(
            k,
        ) implies d.extra.contains_key(k) by {
            assert(k != compact_keys()[0]);
        }
    }
}

proof fn lemma_snapshot_keys()
    ensures
        snapshot_keys()[0] == "state"@,
        snapshot_keys().len() == 1,
{
}

proof fn lemma_snapshot_reads_back(d: SnapshotView)
    requires
        Payload::Snapshot(d).separate(),
    ensures
        read_snapshot(snapshot_map(d)) == Ok::<SnapshotView, Seq<char>>(d),
{
    lemma_snapshot_keys();
    let p = Payload::Snapshot(d);
    let m = snapshot_map(d);
    assert(p.extra() == d.extra);
    assert(p.known_keys() == snapshot_keys());
    assert(snapshot_keys().contains(snapshot_keys()[0]));
    assert(!d.extra.contains_key("state"@));
    assert(field_json(m, "state"@) == Ok::<JsonTree, Seq<char>>(d.state));
    assert(others(m, snapshot_keys()) =~= d.extra) by {
        assert forall|k: Seq<char>| #[trigger] m.contains_key(k) && !snapshot_keys().contains(
            k,
        ) implies d.extra.contains_key(k) by {
            assert(k != snapshot_keys()[0]);
        }
    }
}

proof fn lemma_redact_keys()
    ensures
        "target_hash"@ != "reason"@,
        redact_keys()[0] == "target_hash"@,
        redact_keys()[1] == "reason"@,
        redact_keys().len() == 2,
{
    reveal_strlit("target_hash");
    reveal_strlit("reason");
    assert("target_hash"@.len() != "reason"@.len());
}

proof fn lemma_redact_reads_back(d: RedactView)
    requires
        Payload::Redact(d).separate(),
    ensures
        read_redact(redact_map(d)) == Ok::<RedactView, Seq<char>>(d),
{
    lemma_redact_keys();
    let p = Payload::Redact(d);
    let m = redact_map(d);
    assert(p.extra() == d.extra);
    assert(p.known_keys() == redact_keys());
    assert(redact_keys().contains(redact_keys()[0]));
    assert(!d.extra.contains_key("target_hash"@));
    assert(redact_keys().contains(redact_keys()[1]));
    assert(!d.extra.contains_key("reason"@));
    assert(field_text(m, "target_hash"@) == Ok::<Seq<char>, Seq<char>>(d.target_hash));
    assert(field_text(m, "reason"@) == Ok::<Seq<char>, Seq<char>>(d.reason));
    assert(others(m, redact_keys()) =~= d.extra) by {
        assert forall|k: Seq<char>| #[trigger] m.contains_key(k) && !redact_keys().contains(
            k,
        ) implies d.extra.contains_key(k) by {
            assert(k != redact_keys()[0]);
            assert(k != redact_keys()[1]);
        }
    }
}

/// What is read from a payload's own JSON is that payload, as long as its
/// unknown keys stay clear of the known ones.
pub proof fn payload_reads_back(p: Payload)
    requires
        p.separate(),
    ensures
        read_payload(p.event_type(), p.tree()) == Ok::<Payload, Seq<char>>(p),
{
    match p {
        Payload::Create(d) => lemma_create_reads_back(d),
        Payload::Update(d) => lemma_update_reads_back(d),
        Payload::Move(d) => lemma_move_reads_back(d),
        Payload::Assign(d) => lemma_assign_reads_back(d),
        Payload::Comment(d) => lemma_comment_reads_back(d),
        Payload::Link(d) => lemma_link_reads_back(d),
        Payload::Unlink(d) => lemma_unlink_reads_back(d),
        Payload::Delete(d) => lemma_delete_reads_back(d),
        Payload::Compact(d) => lemma_compact_reads_back(d),
        Payload::Snapshot(d) => lemma_snapshot_reads_back(d),
        Payload::Redact(d) => lemma_redact_reads_back(d),
    }
}

}
