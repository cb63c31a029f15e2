//! Event types.
//!
//! Each event type is one kind of work item mutation, written as
//! `item.<verb>`.

use crate::text::slice::str_eq;
use vstd::prelude::*;

verus! {

/// The event types of the event catalog.
#[derive(Clone, Copy, Debug, PartialEq, Eq, Hash, Structural)]
pub enum EventType {
    /// Create a new work item.
    Create,
    /// Update fields (title, description, size, labels, etc.).
    Update,
    /// Transition to a new lifecycle state.
    Move,
    /// Assign or unassign an agent.
    Assign,
    /// Add a comment or note.
    Comment,
    /// Add a dependency or relationship.
    Link,
    /// Remove a dependency or relationship.
    Unlink,
    /// Soft-delete (tombstone).
    Delete,
    /// Replace description with summary (memory decay).
    Compact,
    /// Lattice-compacted state for a completed item.
    Snapshot,
    /// Replace event payload with [redacted] in projection.
    Redact,
}

impl EventType {
    /// The text form.
    pub open spec fn name(self) -> Seq<char> {
        match self {
            EventType::Create => "item.create"@,
            EventType::Update => "item.update"@,
            EventType::Move => "item.move"@,
            EventType::Assign => "item.assign"@,
            EventType::Comment => "item.comment"@,
            EventType::Link => "item.link"@,
            EventType::Unlink => "item.unlink"@,
            EventType::Delete => "item.delete"@,
            EventType::Compact => "item.compact"@,
            EventType::Snapshot => "item.snapshot"@,
            EventType::Redact => "item.redact"@,
        }
    }

    /// The event type whose text form is `s`.
    pub open spec fn named(s: Seq<char>) -> Option<EventType> {
        if s == "item.create"@ {
            Some(EventType::Create)
        } else if s == "item.update"@ {
            Some(EventType::Update)
        } else if s == "item.move"@ {
            Some(EventType::Move)
        } else if s == "item.assign"@ {
            Some(EventType::Assign)
        } else if s == "item.comment"@ {
            Some(EventType::Comment)
        } else if s == "item.link"@ {
            Some(EventType::Link)
        } else if s == "item.unlink"@ {
            Some(EventType::Unlink)
        } else if s == "item.delete"@ {
            Some(EventType::Delete)
        } else if s == "item.compact"@ {
            Some(EventType::Compact)
        } else if s == "item.snapshot"@ {
            Some(EventType::Snapshot)
        } else if s == "item.redact"@ {
            Some(EventType::Redact)
        } else {
            None
        }
    }

    /// All known event types in catalog order.
    pub const ALL: [EventType; 11] = [
        EventType::Create,
        EventType::Update,
        EventType::Move,
        EventType::Assign,
        EventType::Comment,
        EventType::Link,
        EventType::Unlink,
        EventType::Delete,
        EventType::Compact,
        EventType::Snapshot,
        EventType::Redact,
    ];

    /// Reads an event type, or reports the text that is not one.
    pub fn from_str(s: &str) -> (r: Result<EventType, UnknownEventType>)
        ensures
            match r {
                Ok(event_type) => EventType::named(s@) == Some(event_type),
                Err(e) => EventType::named(s@) is None && e.raw@ == s@,
            },
    {
        match EventType::from_name(s) {
            Some(event_type) => Ok(event_type),
            None => Err(UnknownEventType { raw: s.to_owned() }),
        }
    }

    /// The `item.<verb>` form as an owned text.
    pub fn to_string(&self) -> (r: String)
        ensures
            r@ == self.name(),
    {
        self.as_str().to_owned()
    }

    /// Returns the canonical text form.
    pub fn as_str(self) -> (r: &'static str)
        ensures
            r@ == self.name(),
    {
        match self {
            EventType::Create => "item.create",
            EventType::Update => "item.update",
            EventType::Move => "item.move",
            EventType::Assign => "item.assign",
            EventType::Comment => "item.comment",
            EventType::Link => "item.link",
            EventType::Unlink => "item.unlink",
            EventType::Delete => "item.delete",
            EventType::Compact => "item.compact",
            EventType::Snapshot => "item.snapshot",
            EventType::Redact => "item.redact",
        }
    }

    /// Reads a event type from its text form.
    pub fn from_name(s: &str) -> (r: Option<EventType>)
        ensures
            r == EventType::named(s@),
    {
        if str_eq(s, "item.create") {
            Some(EventType::Create)
        } else if str_eq(s, "item.update") {
            Some(EventType::Update)
        } else if str_eq(s, "item.move") {
            Some(EventType::Move)
        } else if str_eq(s, "item.assign") {
            Some(EventType::Assign)
        } else if str_eq(s, "item.comment") {
            Some(EventType::Comment)
        } else if str_eq(s, "item.link") {
            Some(EventType::Link)
        } else if str_eq(s, "item.unlink") {
            Some(EventType::Unlink)
        } else if str_eq(s, "item.delete") {
            Some(EventType::Delete)
        } else if str_eq(s, "item.compact") {
            Some(EventType::Compact)
        } else if str_eq(s, "item.snapshot") {
            Some(EventType::Snapshot)
        } else if str_eq(s, "item.redact") {
            Some(EventType::Redact)
        } else {
            None
        }
    }

    /// Every event type is read back from its text form.
    pub proof fn name_reads_back(self)
        ensures
            EventType::named(self.name()) == Some(self),
    {
        reveal_strlit("item.create");
        reveal_strlit("item.update");
        reveal_strlit("item.move");
        reveal_strlit("item.assign");
        reveal_strlit("item.comment");
        reveal_strlit("item.link");
        reveal_strlit("item.unlink");
        reveal_strlit("item.delete");
        reveal_strlit("item.compact");
        reveal_strlit("item.snapshot");
        reveal_strlit("item.redact");
        assert("item.create"@[5] != "item.update"@[5]);
        assert("item.create"@.len() != "item.move"@.len());
        assert("item.create"@[5] != "item.assign"@[5]);
        assert("item.create"@.len() != "item.comment"@.len());
        assert("item.create"@.len() != "item.link"@.len());
        assert("item.create"@[5] != "item.unlink"@[5]);
        assert("item.create"@[5] != "item.delete"@[5]);
        assert("item.create"@.len() != "item.compact"@.len());
        assert("item.create"@.len() != "item.snapshot"@.len());
        assert("item.create"@[5] != "item.redact"@[5]);
        assert("item.update"@.len() != "item.move"@.len());
        assert("item.update"@[5] != "item.assign"@[5]);
        assert("item.update"@.len() != "item.comment"@.len());
        assert("item.update"@.len() != "item.link"@.len());
        assert("item.update"@[6] != "item.unlink"@[6]);
        assert("item.update"@[5] != "item.delete"@[5]);
        assert("item.update"@.len() != "item.compact"@.len());
        assert("item.update"@.len() != "item.snapshot"@.len());
        assert("item.update"@[5] != "item.redact"@[5]);
        assert("item.move"@.len() != "item.assign"@.len());
        assert("item.move"@.len() != "item.comment"@.len());
        assert("item.move"@[5] != "item.link"@[5]);
        assert("item.move"@.len() != "item.unlink"@.len());
        assert("item.move"@.len() != "item.delete"@.len());
        assert("item.move"@.len() != "item.compact"@.len());
        assert("item.move"@.len() != "item.snapshot"@.len());
        assert("item.move"@.len() != "item.redact"@.len());
        assert("item.assign"@.len() != "item.comment"@.len());
        assert("item.assign"@.len() != "item.link"@.len());
        assert("item.assign"@[5] != "item.unlink"@[5]);
        assert("item.assign"@[5] != "item.delete"@[5]);
        assert("item.assign"@.len() != "item.compact"@.len());
        assert("item.assign"@.len() != "item.snapshot"@.len());
        assert("item.assign"@[5] != "item.redact"@[5]);
        assert("item.comment"@.len() != "item.link"@.len());
        assert("item.comment"@.len() != "item.unlink"@.len());
        assert("item.comment"@.len() != "item.delete"@.len());
        assert("item.comment"@[8] != "item.compact"@[8]);
        assert("item.comment"@.len() != "item.snapshot"@.len());
        assert("item.comment"@.len() != "item.redact"@.len());
        assert("item.link"@.len() != "item.unlink"@.len());
        assert("item.link"@.len() != "item.delete"@.len());
        assert("item.link"@.len() != "item.compact"@.len());
        assert("item.link"@.len() != "item.snapshot"@.len());
        assert("item.link"@.len() != "item.redact"@.len());
        assert("item.unlink"@[5] != "item.delete"@[5]);
        assert("item.unlink"@.len() != "item.compact"@.len());
        assert("item.unlink"@.len() != "item.snapshot"@.len());
        assert("item.unlink"@[5] != "item.redact"@[5]);
        assert("item.delete"@.len() != "item.compact"@.len());
        assert("item.delete"@.len() != "item.snapshot"@.len());
        assert("item.delete"@[5] != "item.redact"@[5]);
        assert("item.compact"@.len() != "item.snapshot"@.len());
        assert("item.compact"@.len() != "item.redact"@.len());
        assert("item.snapshot"@.len() != "item.redact"@.len());
    }
}

impl std::str::FromStr for EventType {
    type Err = UnknownEventType;

    fn from_str(s: &str) -> (r: Result<Self, UnknownEventType>)
        ensures
            match r {
                Ok(event_type) => EventType::named(s@) == Some(event_type),
                Err(e) => EventType::named(s@) is None && e.raw@ == s@,
            },
    {
        EventType::from_str(s)
    }
}

/// A text that is not an event type.
#[derive(Debug, PartialEq, Eq)]
pub struct UnknownEventType {
    /// The unrecognised input.
    pub raw: String,
}

impl UnknownEventType {
    /// Explains the error.
    pub fn to_string(&self) -> (r: String)
        ensures
            r@ == "unknown event type '"@ + self.raw@ + "': expected one of item.create, item.update, item.move, item.assign, item.comment, item.link, item.unlink, item.delete, item.compact, item.snapshot, item.redact"@,
    {
        let mut s = "unknown event type '".to_owned();
        s.append(self.raw.as_str());
        s.append("': expected one of item.create, item.update, item.move, item.assign, item.comment, item.link, item.unlink, item.delete, item.compact, item.snapshot, item.redact");
        s
    }
}

impl Clone for UnknownEventType {
    fn clone(&self) -> (r: Self)
        ensures
            r == *self,
    {
        UnknownEventType { raw: self.raw.clone() }
    }
}

}
