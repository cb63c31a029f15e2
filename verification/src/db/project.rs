//! Projection of events.
//!
//! Every event becomes a list of statements that bring the projection up to
//! date, run in order. Events are deduplicated by hash: an event whose hash is
//! already recorded is skipped.
//!
//! After a batch, the byte offset and the hash of the last event can be kept as
//! cursor, to go on from there the next time.

use crate::db::statement::{bound_opt, bounds, commands, Bound, Command, Param, Statement};
use crate::event::canonical::{canonical_text, canonicalize_json};
use crate::event::data::{
    AssignAction, AssignView, CreateData, CreateView, EventData, LinkView, Payload, UnlinkView,
    UpdateData, UpdateView,
};
use crate::event::json::{trees, trees_by_index, JsonTree, JsonValue};
use crate::event::types::EventType;
use crate::event::{Event, EventView};
use crate::text::slice::{join, join_strings, str_eq, string_views};
use vstd::prelude::*;

verus! {

/// Statistics returned after a projection run.
#[derive(Debug, PartialEq, Eq, Structural, Clone, Copy)]
pub struct ProjectionStats {
    /// Number of events successfully projected.
    pub projected: usize,
    /// Number of duplicate events skipped.
    pub duplicates: usize,
    /// Number of events that caused errors (logged and skipped).
    pub errors: usize,
}

impl Default for ProjectionStats {
    fn default() -> (r: ProjectionStats)
        ensures
            r == (ProjectionStats { projected: 0, duplicates: 0, errors: 0 }),
    {
        ProjectionStats { projected: 0, duplicates: 0, errors: 0 }
    }
}

pub const INSERT_ITEM: &'static str = "INSERT OR IGNORE INTO items (item_id, title, description, kind, state, urgency, size, parent_id, is_deleted, search_labels, created_at_us, updated_at_us) VALUES (?1, ?2, ?3, ?4, 'open', ?5, ?6, ?7, 0, ?8, ?9, ?10)";

pub const INSERT_PLACEHOLDER: &'static str = "INSERT INTO items (item_id, title, kind, state, urgency, is_deleted, search_labels, created_at_us, updated_at_us) VALUES (?1, '', 'task', 'open', 'default', 0, '', ?2, ?2)";

pub const INSERT_LABEL: &'static str = "INSERT OR IGNORE INTO item_labels (item_id, label, created_at_us) VALUES (?1, ?2, ?3)";

pub const DELETE_LABELS: &'static str = "DELETE FROM item_labels WHERE item_id = ?1";

pub const SET_TITLE: &'static str = "UPDATE items SET title = ?1, updated_at_us = ?2 WHERE item_id = ?3";

pub const SET_DESCRIPTION: &'static str = "UPDATE items SET description = ?1, updated_at_us = ?2 WHERE item_id = ?3";

pub const SET_KIND: &'static str = "UPDATE items SET kind = ?1, updated_at_us = ?2 WHERE item_id = ?3";

pub const SET_SIZE: &'static str = "UPDATE items SET size = ?1, updated_at_us = ?2 WHERE item_id = ?3";

pub const SET_URGENCY: &'static str = "UPDATE items SET urgency = ?1, updated_at_us = ?2 WHERE item_id = ?3";

pub const SET_PARENT: &'static str = "UPDATE items SET parent_id = ?1, updated_at_us = ?2 WHERE item_id = ?3";

pub const SET_SEARCH_LABELS: &'static str = "UPDATE items SET search_labels = ?1, updated_at_us = ?2 WHERE item_id = ?3";

pub const SET_STATE: &'static str = "UPDATE items SET state = ?1, updated_at_us = ?2 WHERE item_id = ?3";

pub const SET_SUMMARY: &'static str = "UPDATE items SET compact_summary = ?1, updated_at_us = ?2 WHERE item_id = ?3";

pub const SET_SNAPSHOT: &'static str = "UPDATE items SET snapshot_json = ?1, updated_at_us = ?2 WHERE item_id = ?3";

pub const SET_DELETED: &'static str = "UPDATE items SET is_deleted = 1, deleted_at_us = ?1, updated_at_us = ?1 WHERE item_id = ?2";

pub const TOUCH: &'static str = "UPDATE items SET updated_at_us = ?1 WHERE item_id = ?2";

pub const INSERT_ASSIGNEE: &'static str = "INSERT OR IGNORE INTO item_assignees (item_id, agent, created_at_us) VALUES (?1, ?2, ?3)";

pub const DELETE_ASSIGNEE: &'static str = "DELETE FROM item_assignees WHERE item_id = ?1 AND agent = ?2";

pub const INSERT_COMMENT: &'static str = "INSERT OR IGNORE INTO item_comments (item_id, event_hash, author, body, created_at_us) VALUES (?1, ?2, ?3, ?4, ?5)";

pub const INSERT_LINK: &'static str = "INSERT OR IGNORE INTO item_dependencies (item_id, depends_on_item_id, link_type, created_at_us) VALUES (?1, ?2, ?3, ?4)";

pub const DELETE_LINK: &'static str = "DELETE FROM item_dependencies WHERE item_id = ?1 AND depends_on_item_id = ?2 AND link_type = ?3";

pub const DELETE_LINKS: &'static str = "DELETE FROM item_dependencies WHERE item_id = ?1 AND depends_on_item_id = ?2";

pub const INSERT_REDACTION: &'static str = "INSERT OR IGNORE INTO event_redactions (target_event_hash, item_id, reason, redacted_by, redacted_at_us) VALUES (?1, ?2, ?3, ?4, ?5)";

pub const REDACT_COMMENT: &'static str = "UPDATE item_comments SET body = '[redacted]' WHERE event_hash = ?1";

pub const RECORD_EVENT: &'static str = "INSERT OR IGNORE INTO projected_events (event_hash, item_id, event_type, projected_at_us) VALUES (?1, ?2, ?3, ?4)";

pub const IS_PROJECTED: &'static str = "SELECT EXISTS(SELECT 1 FROM projected_events WHERE event_hash = ?1)";

/// Creates the table in which the hashes of projected events are recorded.
pub const PROJECTED_EVENTS_DDL: &'static str = "CREATE TABLE IF NOT EXISTS projected_events (
    event_hash TEXT PRIMARY KEY,
    item_id TEXT NOT NULL,
    event_type TEXT NOT NULL,
    projected_at_us INTEGER NOT NULL
);
CREATE INDEX IF NOT EXISTS idx_projected_events_item
    ON projected_events(item_id);
";

/// Clears all projected data for a rebuild. The tables stay.
pub const CLEAR_PROJECTION: &'static str = "DELETE FROM event_redactions;
DELETE FROM item_comments;
DELETE FROM item_dependencies;
DELETE FROM item_assignees;
DELETE FROM item_labels;
DELETE FROM items;
DELETE FROM projected_events;
UPDATE projection_meta SET last_event_offset = 0, last_event_hash = NULL WHERE id = 1;";

/// The statement that creates the row of an item.
pub open spec fn item_row(e: EventView, d: CreateView) -> Command {
    Command {
        sql: INSERT_ITEM@,
        params: seq![
            Bound::Text(e.item_id),
            Bound::Text(d.title),
            bound_opt(d.description),
            Bound::Text(d.kind.name()),
            Bound::Text(d.urgency.name()),
            bound_opt(
                match d.size {
                    Some(size) => Some(size.name()),
                    None => None,
                },
            ),
            bound_opt(d.parent),
            Bound::Text(join(d.labels, " "@)),
            Bound::Int(e.wall_ts_us),
            Bound::Int(e.wall_ts_us),
        ],
    }
}

/// The statement that creates a row for an item that no event has created yet.
pub open spec fn placeholder_row(e: EventView) -> Command {
    Command {
        sql: INSERT_PLACEHOLDER@,
        params: seq![Bound::Text(e.item_id), Bound::Int(e.wall_ts_us)],
    }
}

/// What has to be done first so that the item of an event exists.
pub open spec fn prepared(e: EventView, exists: bool) -> Seq<Command> {
    if exists {
        Seq::empty()
    } else {
        seq![placeholder_row(e)]
    }
}

/// The statement that gives an item a label.
pub open spec fn label_row(e: EventView, label: Seq<char>) -> Command {
    Command {
        sql: INSERT_LABEL@,
        params: seq![Bound::Text(e.item_id), Bound::Text(label), Bound::Int(e.wall_ts_us)],
    }
}

/// The statements that give an item labels.
pub open spec fn label_rows(e: EventView, labels: Seq<Seq<char>>) -> Seq<Command> {
    labels.map_values(|label: Seq<char>| label_row(e, label))
}

/// The statement that sets a column of an item.
pub open spec fn column_set(sql: Seq<char>, e: EventView, value: Bound) -> Command {
    Command { sql, params: seq![value, Bound::Int(e.wall_ts_us), Bound::Text(e.item_id)] }
}

/// The statement that only moves the time of the last update.
pub open spec fn touched(e: EventView) -> Command {
    Command { sql: TOUCH@, params: seq![Bound::Int(e.wall_ts_us), Bound::Text(e.item_id)] }
}

/// The text of a JSON value, or another text if it holds none.
pub open spec fn text_or(t: JsonTree, other: Seq<char>) -> Seq<char> {
    match t {
        JsonTree::Text(s) => s,
        _ => other,
    }
}

/// The text of a JSON value, if it holds one.
pub open spec fn text_bound(t: JsonTree) -> Bound {
    match t {
        JsonTree::Text(s) => Bound::Text(s),
        _ => Bound::Null,
    }
}

/// The texts among some JSON values.
pub open spec fn texts_among(items: Seq<JsonTree>) -> Seq<Seq<char>>
    decreases items.len(),
{
    if items.len() == 0 {
        Seq::empty()
    } else {
        match items.last() {
            JsonTree::Text(s) => texts_among(items.drop_last()).push(s),
            _ => texts_among(items.drop_last()),
        }
    }
}

/// What an update of the labels does: the new labels replace the old ones. A
/// value that is no array changes nothing.
pub open spec fn labels_replaced(e: EventView, value: JsonTree) -> Seq<Command> {
    match value {
        JsonTree::Array(items) => {
            let labels = texts_among(items);
            seq![Command { sql: DELETE_LABELS@, params: seq![Bound::Text(e.item_id)] }]
                + label_rows(e, labels) + seq![
                column_set(SET_SEARCH_LABELS@, e, Bound::Text(join(labels, " "@))),
            ]
        },
        _ => Seq::empty(),
    }
}

/// What an update of a field does. An unknown field moves the time of the last
/// update only.
pub open spec fn field_set(e: EventView, d: UpdateView) -> Seq<Command> {
    if d.field == "title"@ {
        seq![column_set(SET_TITLE@, e, Bound::Text(text_or(d.value, ""@)))]
    } else if d.field == "description"@ {
        seq![column_set(SET_DESCRIPTION@, e, text_bound(d.value))]
    } else if d.field == "kind"@ {
        seq![column_set(SET_KIND@, e, Bound::Text(text_or(d.value, "task"@)))]
    } else if d.field == "size"@ {
        seq![column_set(SET_SIZE@, e, text_bound(d.value))]
    } else if d.field == "urgency"@ {
        seq![column_set(SET_URGENCY@, e, Bound::Text(text_or(d.value, "default"@)))]
    } else if d.field == "parent"@ {
        seq![column_set(SET_PARENT@, e, text_bound(d.value))]
    } else if d.field == "labels"@ {
        labels_replaced(e, d.value)
    } else {
        seq![touched(e)]
    }
}

/// What an assignment does.
pub open spec fn assigned(e: EventView, d: AssignView) -> Seq<Command> {
    match d.action {
        AssignAction::Assign => seq![
            Command {
                sql: INSERT_ASSIGNEE@,
                params: seq![
                    Bound::Text(e.item_id),
                    Bound::Text(d.agent),
                    Bound::Int(e.wall_ts_us),
                ],
            },
            touched(e),
        ],
        AssignAction::Unassign => seq![
            Command {
                sql: DELETE_ASSIGNEE@,
                params: seq![Bound::Text(e.item_id), Bound::Text(d.agent)],
            },
            touched(e),
        ],
    }
}

/// What a comment does.
pub open spec fn commented(e: EventView, body: Seq<char>) -> Seq<Command> {
    seq![
        Command {
            sql: INSERT_COMMENT@,
            params: seq![
                Bound::Text(e.item_id),
                Bound::Text(e.event_hash),
                Bound::Text(e.agent),
                Bound::Text(body),
                Bound::Int(e.wall_ts_us),
            ],
        },
        touched(e),
    ]
}

/// What a link does.
pub open spec fn linked(e: EventView, d: LinkView) -> Seq<Command> {
    seq![
        Command {
            sql: INSERT_LINK@,
            params: seq![
                Bound::Text(e.item_id),
                Bound::Text(d.target),
                Bound::Text(d.link_type),
                Bound::Int(e.wall_ts_us),
            ],
        },
        touched(e),
    ]
}

/// What removing a link does; without a link type, all links to the target go.
pub open spec fn unlinked(e: EventView, d: UnlinkView) -> Seq<Command> {
    seq![
        match d.link_type {
            Some(link_type) => Command {
                sql: DELETE_LINK@,
                params: seq![
                    Bound::Text(e.item_id),
                    Bound::Text(d.target),
                    Bound::Text(link_type),
                ],
            },
            None => Command {
                sql: DELETE_LINKS@,
                params: seq![Bound::Text(e.item_id), Bound::Text(d.target)],
            },
        },
        touched(e),
    ]
}

/// What a deletion does.
pub open spec fn deleted(e: EventView) -> Seq<Command> {
    seq![
        Command {
            sql: SET_DELETED@,
            params: seq![Bound::Int(e.wall_ts_us), Bound::Text(e.item_id)],
        },
    ]
}

/// What a redaction does: it is put on record, and the body of a redacted
/// comment is replaced.
pub open spec fn redacted(e: EventView, target: Seq<char>, reason: Seq<char>) -> Seq<Command> {
    seq![
        Command {
            sql: INSERT_REDACTION@,
            params: seq![
                Bound::Text(target),
                Bound::Text(e.item_id),
                Bound::Text(reason),
                Bound::Text(e.agent),
                Bound::Int(e.wall_ts_us),
            ],
        },
        Command { sql: REDACT_COMMENT@, params: seq![Bound::Text(target)] },
    ]
}

/// What an event does, or none if its payload is not of its type. `exists` says
/// whether the item has a row.
pub open spec fn changes(e: EventView, exists: bool) -> Option<Seq<Command>> {
    match (e.event_type, e.data) {
        (EventType::Create, Payload::Create(d)) => Some(
            seq![item_row(e, d)] + label_rows(e, d.labels),
        ),
        (EventType::Update, Payload::Update(d)) => Some(prepared(e, exists) + field_set(e, d)),
        (EventType::Move, Payload::Move(d)) => Some(
            prepared(e, exists) + seq![column_set(SET_STATE@, e, Bound::Text(d.state.name()))],
        ),
        (EventType::Assign, Payload::Assign(d)) => Some(prepared(e, exists) + assigned(e, d)),
        (EventType::Comment, Payload::Comment(d)) => Some(
            prepared(e, exists) + commented(e, d.body),
        ),
        (EventType::Link, Payload::Link(d)) => Some(prepared(e, exists) + linked(e, d)),
        (EventType::Unlink, Payload::Unlink(d)) => Some(prepared(e, exists) + unlinked(e, d)),
        (EventType::Delete, _) => Some(prepared(e, exists) + deleted(e)),
        (EventType::Compact, Payload::Compact(d)) => Some(
            prepared(e, exists) + seq![column_set(SET_SUMMARY@, e, Bound::Text(d.summary))],
        ),
        (EventType::Snapshot, Payload::Snapshot(d)) => Some(
            prepared(e, exists) + seq![
                column_set(SET_SNAPSHOT@, e, Bound::Text(canonical_text(d.state))),
            ],
        ),
        (EventType::Redact, Payload::Redact(d)) => Some(redacted(e, d.target_hash, d.reason)),
        _ => None,
    }
}

/// The statement that records the hash of an event.
pub open spec fn recorded(e: EventView) -> Command {
    Command {
        sql: RECORD_EVENT@,
        params: seq![
            Bound::Text(e.event_hash),
            Bound::Text(e.item_id),
            Bound::Text(e.event_type.name()),
            Bound::Int(e.wall_ts_us),
        ],
    }
}

/// What is wrong with an event whose payload is not of its type.
pub open spec fn mismatch(event_type: EventType) -> Seq<char> {
    match event_type {
        EventType::Create => "expected Create data for item.create event"@,
        EventType::Update => "expected Update data for item.update event"@,
        EventType::Move => "expected Move data for item.move event"@,
        EventType::Assign => "expected Assign data for item.assign event"@,
        EventType::Comment => "expected Comment data for item.comment event"@,
        EventType::Link => "expected Link data for item.link event"@,
        EventType::Unlink => "expected Unlink data for item.unlink event"@,
        EventType::Delete => "expected Delete data for item.delete event"@,
        EventType::Compact => "expected Compact data for item.compact event"@,
        EventType::Snapshot => "expected Snapshot data for item.snapshot event"@,
        EventType::Redact => "expected Redact data for item.redact event"@,
    }
}

fn mismatch_text(event_type: EventType) -> (r: String)
    ensures
        r@ == mismatch(event_type),
{
    match event_type {
        EventType::Create => "expected Create data for item.create event".to_owned(),
        EventType::Update => "expected Update data for item.update event".to_owned(),
        EventType::Move => "expected Move data for item.move event".to_owned(),
        EventType::Assign => "expected Assign data for item.assign event".to_owned(),
        EventType::Comment => "expected Comment data for item.comment event".to_owned(),
        EventType::Link => "expected Link data for item.link event".to_owned(),
        EventType::Unlink => "expected Unlink data for item.unlink event".to_owned(),
        EventType::Delete => "expected Delete data for item.delete event".to_owned(),
        EventType::Compact => "expected Compact data for item.compact event".to_owned(),
        EventType::Snapshot => "expected Snapshot data for item.snapshot event".to_owned(),
        EventType::Redact => "expected Redact data for item.redact event".to_owned(),
    }
}

/// A list of statements under construction.
struct Plan {
    steps: Vec<Statement>,
}

impl Plan {
    spec fn commands(self) -> Seq<Command> {
        commands(self.steps@)
    }

    fn run(&mut self, sql: &str, params: Vec<Param>)
        ensures
            final(self).commands() == old(self).commands().push(
                Command { sql: sql@, params: bounds(params@) },
            ),
    {
        let ghost before = self.steps@;
        self.steps.push(Statement::new(sql, params));
        assert(self.commands() =~= commands(before).push(
            Command { sql: sql@, params: bounds(params@) },
        ));
    }

    /// Starts with what makes the item of an event exist.
    fn ensure_item_exists(event: &Event, exists: bool) -> (r: Plan)
        ensures
            r.commands() == prepared(event@, exists),
    {
        let mut plan = Plan { steps: Vec::new() };
        assert(plan.commands() =~= Seq::empty());
        if !exists {
            let params = vec![Param::text(event.item_id.as_str()), Param::Int(event.wall_ts_us)];
            assert(bounds(params@) =~= placeholder_row(event@).params);
            plan.run(INSERT_PLACEHOLDER, params);
            assert(plan.commands() =~= prepared(event@, exists));
        }
        plan
    }

    fn set_column(&mut self, sql: &str, event: &Event, value: Param)
        ensures
            final(self).commands() == old(self).commands().push(
                column_set(sql@, event@, value@),
            ),
    {
        let params = vec![
            value,
            Param::Int(event.wall_ts_us),
            Param::text(event.item_id.as_str()),
        ];
        assert(bounds(params@) =~= column_set(sql@, event@, value@).params);
        self.run(sql, params);
    }

    fn touch(&mut self, event: &Event)
        ensures
            final(self).commands() == old(self).commands().push(touched(event@)),
    {
        let params = vec![Param::Int(event.wall_ts_us), Param::text(event.item_id.as_str())];
        assert(bounds(params@) =~= touched(event@).params);
        self.run(TOUCH, params);
    }

    fn add_labels(&mut self, event: &Event, labels: &Vec<String>)
        ensures
            final(self).commands() == old(self).commands() + label_rows(
                event@,
                string_views(labels@),
            ),
    {
        let ghost before = self.commands();
        let ghost rows = label_rows(event@, string_views(labels@));
        let mut i: usize = 0;
        assert(rows.take(0) =~= Seq::empty());
        assert(before + rows.take(0) =~= before);
        while i < labels.len()
            invariant
                i <= labels.len(),
                rows == label_rows(event@, string_views(labels@)),
                self.commands() == before + rows.take(i as int),
            decreases labels.len() - i,
        {
            let params = vec![
                Param::text(event.item_id.as_str()),
                Param::text(labels[i].as_str()),
                Param::Int(event.wall_ts_us),
            ];
            assert(bounds(params@) =~= rows[i as int].params);
            assert(before + rows.take(i + 1) =~= (before + rows.take(i as int)).push(
                rows[i as int],
            ));
            self.run(INSERT_LABEL, params);
            i += 1;
        }
        assert(rows.take(i as int) =~= rows);
    }
}

/// The texts among some JSON values.
fn texts_of(items: &Vec<JsonValue>) -> (r: Vec<String>)
    ensures
        string_views(r@) == texts_among(trees(items@)),
{
    let ghost all = trees(items@);
    proof {
        trees_by_index(items@);
    }
    let mut r: Vec<String> = Vec::new();
    let mut i: usize = 0;
    assert(string_views(r@) =~= Seq::empty());
    assert(all.take(0) =~= Seq::empty());
    while i < items.len()
        invariant
            i <= items.len(),
            all == trees(items@),
            all.len() == items.len(),
            forall|k: int| 0 <= k < items.len() ==> #[trigger] all[k] == items[k].tree(),
            string_views(r@) == texts_among(all.take(i as int)),
        decreases items.len() - i,
    {
        proof {
            assert(all.take(i + 1).drop_last() =~= all.take(i as int));
            assert(all.take(i + 1).last() == items[i as int].tree());
        }
        if let Some(label) = items[i].as_str() {
            let ghost before = r@;
            r.push(label.to_owned());
            assert(string_views(r@) =~= string_views(before).push(label@));
        }
        i += 1;
    }
    assert(all.take(i as int) =~= all);
    r
}

fn project_create(event: &Event, data: &CreateData) -> (r: Plan)
    ensures
        r.commands() == seq![item_row(event@, data@)] + label_rows(event@, data@.labels),
{
    let mut plan = Plan { steps: Vec::new() };
    assert(plan.commands() =~= Seq::empty());
    let description = match &data.description {
        Some(s) => Param::text(s.as_str()),
        None => Param::Null,
    };
    let size = match data.size {
        Some(s) => Param::text(s.as_str()),
        None => Param::Null,
    };
    let parent = match &data.parent {
        Some(s) => Param::text(s.as_str()),
        None => Param::Null,
    };
    let params = vec![
        Param::text(event.item_id.as_str()),
        Param::text(data.title.as_str()),
        description,
        Param::text(data.kind.as_str()),
        Param::text(data.urgency.as_str()),
        size,
        parent,
        Param::Text(join_strings(&data.labels, " ")),
        Param::Int(event.wall_ts_us),
        Param::Int(event.wall_ts_us),
    ];
    assert(bounds(params@) =~= item_row(event@, data@).params);
    plan.run(INSERT_ITEM, params);
    assert(plan.commands() =~= seq![item_row(event@, data@)]);
    plan.add_labels(event, &data.labels);
    plan
}

fn json_param(value: &JsonValue) -> (r: Param)
    ensures
        r@ == text_bound(value.tree()),
{
    match value.as_str() {
        Some(s) => Param::text(s),
        None => Param::Null,
    }
}

fn json_param_or(value: &JsonValue, other: &str) -> (r: Param)
    ensures
        r@ == Bound::Text(text_or(value.tree(), other@)),
{
    match value.as_str() {
        Some(s) => Param::text(s),
        None => Param::text(other),
    }
}

fn project_update(event: &Event, data: &UpdateData, exists: bool) -> (r: Plan)
    ensures
        r.commands() == prepared(event@, exists) + field_set(event@, data@),
{
    let mut plan = Plan::ensure_item_exists(event, exists);
    let ghost first = plan.commands();
    let field = data.field.as_str();
    if str_eq(field, "title") {
        plan.set_column(SET_TITLE, event, json_param_or(&data.value, ""));
    } else if str_eq(field, "description") {
        plan.set_column(SET_DESCRIPTION, event, json_param(&data.value));
    } else if str_eq(field, "kind") {
        plan.set_column(SET_KIND, event, json_param_or(&data.value, "task"));
    } else if str_eq(field, "size") {
        plan.set_column(SET_SIZE, event, json_param(&data.value));
    } else if str_eq(field, "urgency") {
        plan.set_column(SET_URGENCY, event, json_param_or(&data.value, "default"));
    } else if str_eq(field, "parent") {
        plan.set_column(SET_PARENT, event, json_param(&data.value));
    } else if str_eq(field, "labels") {
        if let Some(items) = data.value.as_array() {
            let params = vec![Param::text(event.item_id.as_str())];
            assert(bounds(params@) =~= seq![Bound::Text(event@.item_id)]);
            plan.run(DELETE_LABELS, params);
            let labels = texts_of(items);
            plan.add_labels(event, &labels);
            plan.set_column(
                SET_SEARCH_LABELS,
                event,
                Param::Text(join_strings(&labels, " ")),
            );
        }
    } else {
        plan.touch(event);
    }
    assert(plan.commands() =~= first + field_set(event@, data@));
    plan
}

/// Makes the statements that project an event, given whether its item has a row.
/// They run in order; the last one records the hash of the event. An event whose
/// payload is not of its type is an error.
pub fn project_event(event: &Event, exists: bool) -> (r: Result<Vec<Statement>, String>)
    ensures
        match changes(event@, exists) {
            Some(steps) => r is Ok && commands(r->Ok_0@) == steps.push(recorded(event@)),
            None => r is Err && r->Err_0@ == mismatch(event@.event_type),
        },
{
    let mut plan = match (&event.event_type, &event.data) {
        (EventType::Create, EventData::Create(data)) => project_create(event, data),
        (EventType::Update, EventData::Update(data)) => project_update(event, data, exists),
        (EventType::Move, EventData::Move(data)) => {
            let mut plan = Plan::ensure_item_exists(event, exists);
            let ghost first = plan.commands();
            plan.set_column(SET_STATE, event, Param::text(data.state.as_str()));
            assert(plan.commands() =~= first + seq![
                column_set(SET_STATE@, event@, Bound::Text(data.state.name())),
            ]);
            plan
        },
        (EventType::Assign, EventData::Assign(data)) => {
            let mut plan = Plan::ensure_item_exists(event, exists);
            let ghost first = plan.commands();
            match data.action {
                AssignAction::Assign => {
                    let params = vec![
                        Param::text(event.item_id.as_str()),
                        Param::text(data.agent.as_str()),
                        Param::Int(event.wall_ts_us),
                    ];
                    assert(bounds(params@) =~= assigned(event@, data@)[0].params);
                    plan.run(INSERT_ASSIGNEE, params);
                },
                AssignAction::Unassign => {
                    let params = vec![
                        Param::text(event.item_id.as_str()),
                        Param::text(data.agent.as_str()),
                    ];
                    assert(bounds(params@) =~= assigned(event@, data@)[0].params);
                    plan.run(DELETE_ASSIGNEE, params);
                },
            }
            plan.touch(event);
            assert(plan.commands() =~= first + assigned(event@, data@));
            plan
        },
        (EventType::Comment, EventData::Comment(data)) => {
            let mut plan = Plan::ensure_item_exists(event, exists);
            let ghost first = plan.commands();
            let params = vec![
                Param::text(event.item_id.as_str()),
                Param::text(event.event_hash.as_str()),
                Param::text(event.agent.as_str()),
                Param::text(data.body.as_str()),
                Param::Int(event.wall_ts_us),
            ];
            assert(bounds(params@) =~= commented(event@, data@.body)[0].params);
            plan.run(INSERT_COMMENT, params);
            plan.touch(event);
            assert(plan.commands() =~= first + commented(event@, data@.body));
            plan
        },
        (EventType::Link, EventData::Link(data)) => {
            let mut plan = Plan::ensure_item_exists(event, exists);
            let ghost first = plan.commands();
            let params = vec![
                Param::text(event.item_id.as_str()),
                Param::text(data.target.as_str()),
                Param::text(data.link_type.as_str()),
                Param::Int(event.wall_ts_us),
            ];
            assert(bounds(params@) =~= linked(event@, data@)[0].params);
            plan.run(INSERT_LINK, params);
            plan.touch(event);
            assert(plan.commands() =~= first + linked(event@, data@));
            plan
        },
        (EventType::Unlink, EventData::Unlink(data)) => {
            let mut plan = Plan::ensure_item_exists(event, exists);
            let ghost first = plan.commands();
            match &data.link_type {
                Some(link_type) => {
                    let params = vec![
                        Param::text(event.item_id.as_str()),
                        Param::text(data.target.as_str()),
                        Param::text(link_type.as_str()),
                    ];
                    assert(bounds(params@) =~= unlinked(event@, data@)[0].params);
                    plan.run(DELETE_LINK, params);
                },
                None => {
                    let params = vec![
                        Param::text(event.item_id.as_str()),
                        Param::text(data.target.as_str()),
                    ];
                    assert(bounds(params@) =~= unlinked(event@, data@)[0].params);
                    plan.run(DELETE_LINKS, params);
                },
            }
            plan.touch(event);
            assert(plan.commands() =~= first + unlinked(event@, data@));
            plan
        },
        (EventType::Delete, _) => {
            let mut plan = Plan::ensure_item_exists(event, exists);
            let ghost first = plan.commands();
            let params = vec![Param::Int(event.wall_ts_us), Param::text(event.item_id.as_str())];
            assert(bounds(params@) =~= deleted(event@)[0].params);
            plan.run(SET_DELETED, params);
            assert(plan.commands() =~= first + deleted(event@));
            plan
        },
        (EventType::Compact, EventData::Compact(data)) => {
            let mut plan = Plan::ensure_item_exists(event, exists);
            let ghost first = plan.commands();
            plan.set_column(SET_SUMMARY, event, Param::text(data.summary.as_str()));
            assert(plan.commands() =~= first + seq![
                column_set(SET_SUMMARY@, event@, Bound::Text(data@.summary)),
            ]);
            plan
        },
        (EventType::Snapshot, EventData::Snapshot(data)) => {
            let mut plan = Plan::ensure_item_exists(event, exists);
            let ghost first = plan.commands();
            plan.set_column(SET_SNAPSHOT, event, Param::Text(canonicalize_json(&data.state)));
            assert(plan.commands() =~= first + seq![
                column_set(SET_SNAPSHOT@, event@, Bound::Text(canonical_text(data@.state))),
            ]);
            plan
        },
        (EventType::Redact, EventData::Redact(data)) => {
            let mut plan = Plan { steps: Vec::new() };
            assert(plan.commands() =~= Seq::empty());
            let params = vec![
                Param::text(data.target_hash.as_str()),
                Param::text(event.item_id.as_str()),
                Param::text(data.reason.as_str()),
                Param::text(event.agent.as_str()),
                Param::Int(event.wall_ts_us),
            ];
            assert(bounds(params@) =~= redacted(event@, data@.target_hash, data@.reason)[0].params);
            plan.run(INSERT_REDACTION, params);
            let target = vec![Param::text(data.target_hash.as_str())];
            assert(bounds(target@) =~= seq![Bound::Text(data@.target_hash)]);
            plan.run(REDACT_COMMENT, target);
            assert(plan.commands() =~= redacted(event@, data@.target_hash, data@.reason));
            plan
        },
        _ => return Err(mismatch_text(event.event_type)),
    };
    let params = vec![
        Param::text(event.event_hash.as_str()),
        Param::text(event.item_id.as_str()),
        Param::text(event.event_type.as_str()),
        Param::Int(event.wall_ts_us),
    ];
    assert(bounds(params@) =~= recorded(event@).params);
    plan.run(RECORD_EVENT, params);
    Ok(plan.steps)
}

/// Makes the statement that tells whether an event is recorded.
pub fn is_event_projected(event_hash: &str) -> (r: Statement)
    ensures
        r@ == (Command { sql: IS_PROJECTED@, params: seq![Bound::Text(event_hash@)] }),
{
    let r = Statement::new(IS_PROJECTED, vec![Param::text(event_hash)]);
    assert(r@.params =~= seq![Bound::Text(event_hash@)]);
    r
}

/// What became of an event.
#[derive(Debug, Clone, Copy, PartialEq, Eq, Structural)]
pub enum ProjectResult {
    Projected,
    Duplicate,
    Failed,
}

/// Decides what an event needs: nothing if its hash is recorded already, and
/// else its statements.
pub fn project_event_inner(event: &Event, is_recorded: bool, exists: bool) -> (r: Result<
    Option<Vec<Statement>>,
    String,
>)
    ensures
        is_recorded ==> r == Ok::<Option<Vec<Statement>>, String>(None),
        !is_recorded ==> match changes(event@, exists) {
            Some(steps) => r is Ok && r->Ok_0 is Some && commands(r->Ok_0->0@) == steps.push(
                recorded(event@),
            ),
            None => r is Err && r->Err_0@ == mismatch(event@.event_type),
        },
{
    if is_recorded {
        Ok(None)
    } else {
        match project_event(event, exists) {
            Ok(steps) => Ok(Some(steps)),
            Err(message) => Err(message),
        }
    }
}

/// How many of some results are the given one.
pub open spec fn tally(results: Seq<ProjectResult>, result: ProjectResult) -> nat
    decreases results.len(),
{
    if results.len() == 0 {
        0
    } else {
        tally(results.drop_last(), result) + if results.last() == result {
            1nat
        } else {
            0nat
        }
    }
}

/// Counts the results of a batch. Errors do not end a batch.
pub fn project_batch(results: &Vec<ProjectResult>) -> (r: ProjectionStats)
    ensures
        r.projected == tally(results@, ProjectResult::Projected),
        r.duplicates == tally(results@, ProjectResult::Duplicate),
        r.errors == tally(results@, ProjectResult::Failed),
        r.projected + r.duplicates + r.errors == results.len(),
{
    let mut stats = ProjectionStats::default();
    let mut i: usize = 0;
    while i < results.len()
        invariant
            i <= results.len(),
            stats.projected == tally(results@.take(i as int), ProjectResult::Projected),
            stats.duplicates == tally(results@.take(i as int), ProjectResult::Duplicate),
            stats.errors == tally(results@.take(i as int), ProjectResult::Failed),
            stats.projected + stats.duplicates + stats.errors == i,
        decreases results.len() - i,
    {
        assert(results@.take(i + 1).drop_last() =~= results@.take(i as int));
        match results[i] {
            ProjectResult::Projected => {
                stats.projected += 1;
            },
            ProjectResult::Duplicate => {
                stats.duplicates += 1;
            },
            ProjectResult::Failed => {
                stats.errors += 1;
            },
        }
        i += 1;
    }
    assert(results@.take(i as int) =~= results@);
    stats
}

/// An event that refers to an item without a row starts with a placeholder row
/// for it, unless it creates the item or redacts another event.
pub proof fn unknown_items_get_a_row(e: EventView)
    requires
        changes(e, false) is Some,
    ensures
        e.event_type != EventType::Create && e.event_type != EventType::Redact ==> changes(
            e,
            false,
        )->0.len() > 0 && changes(e, false)->0[0] == placeholder_row(e) && changes(e, false)->0
            == seq![placeholder_row(e)] + changes(e, true)->0,
        e.event_type == EventType::Create || e.event_type == EventType::Redact ==> changes(e, false)
            == changes(e, true),
{
    assert(Seq::<Command>::empty() + field_set(e, e.data->Update_0) =~= field_set(
        e,
        e.data->Update_0,
    ));
    let with_row = changes(e, true)->0;
    assert(Seq::<Command>::empty() + with_row =~= with_row);
    if e.event_type != EventType::Create && e.event_type != EventType::Redact {
        assert(changes(e, false)->0 =~= seq![placeholder_row(e)] + with_row);
    }
}

}
