//! What events do to the state of a work item, field by field.

use crate::clock::wall::WallTime;
use crate::crdt::item_state::{applied, tag_of, with_all, write_of, ItemView, Reg};
use crate::crdt::orset::Tagged;
use crate::crdt::state::Phase;
use crate::crdt::tags::{bit_stamps_are_concurrent_or_same, text_hash};
use crate::crdt::Timestamp;
use crate::event::data::AssignAction;
use crate::event::json::JsonTree;
use crate::event::types::EventType;
use crate::event::EventView;
use crate::model::item::{Kind, Size, State, Urgency};
use crate::text::order::{lex_lt, lex_lt_asymmetric};
use vstd::prelude::*;

verus! {

/// Whether a register holds a value that an event wrote, with the time, the agent
/// and the hash of the event.
pub open spec fn holds_write<V>(r: Reg<V>, e: EventView, value: V) -> bool {
    &&& r.value == value
    &&& r.write.agent == e.agent
    &&& r.write.hash == e.event_hash
    &&& e.wall_ts_us >= 0 ==> r.write.wall_ts == e.wall_ts_us
}

/// Whether two sets hold the same values, but for one.
pub open spec fn same_apart_from(
    a: Tagged<Seq<char>>,
    b: Tagged<Seq<char>>,
    value: Seq<char>,
) -> bool {
    forall|other: Seq<char>| other != value ==> #[trigger] a.has(other) == b.has(other)
}

/// Whether an event can add a value to a set: its tag for it was not removed.
pub open spec fn addable(
    set: Tagged<Seq<char>>,
    e: EventView,
    wall: WallTime,
    value: Seq<char>,
) -> bool {
    !set.tombstone.contains((value, tag_of(e, wall, value)))
}

proof fn lemma_add_shows(
    set: Tagged<Seq<char>>,
    e: EventView,
    wall: WallTime,
    value: Seq<char>,
)
    requires
        addable(set, e, wall, value),
    ensures
        set.added(value, tag_of(e, wall, value)).has(value),
        same_apart_from(set.added(value, tag_of(e, wall, value)), set, value),
{
    let after = set.added(value, tag_of(e, wall, value));
    assert(after.live(value, tag_of(e, wall, value)));
    assert forall|other: Seq<char>| other != value implies #[trigger] after.has(other) == set.has(
        other,
    ) by {
        lemma_same_live(after, set, other);
    }
}

proof fn lemma_remove_shows(set: Tagged<Seq<char>>, value: Seq<char>)
    ensures
        !set.removed(value, set.tags(value)).has(value),
        same_apart_from(set.removed(value, set.tags(value)), set, value),
{
    let after = set.removed(value, set.tags(value));
    assert forall|tag: Timestamp| !#[trigger] after.live(value, tag) by {
        if set.elements.contains((value, tag)) {
            assert(set.tags(value).contains(tag));
        }
    }
    assert forall|other: Seq<char>| other != value implies #[trigger] after.has(other) == set.has(
        other,
    ) by {
        lemma_same_live(after, set, other);
    }
}

proof fn lemma_same_live(a: Tagged<Seq<char>>, b: Tagged<Seq<char>>, value: Seq<char>)
    requires
        forall|tag: Timestamp| #[trigger] a.live(value, tag) == b.live(value, tag),
    ensures
        a.has(value) == b.has(value),
{
    if a.has(value) {
        let tag = choose|tag: Timestamp| #[trigger] a.live(value, tag);
        assert(b.live(value, tag));
    }
    if b.has(value) {
        let tag = choose|tag: Timestamp| #[trigger] b.live(value, tag);
        assert(a.live(value, tag));
    }
}

proof fn lemma_all_are_added(
    set: Tagged<Seq<char>>,
    e: EventView,
    wall: WallTime,
    values: Seq<Seq<char>>,
)
    ensures
        with_all(set, e, wall, values).tombstone == set.tombstone,
        forall|v: Seq<char>, tag: Timestamp| #[trigger]
            with_all(set, e, wall, values).elements.contains((v, tag)) <==> set.elements.contains(
                (v, tag),
            ) || (values.contains(v) && tag == tag_of(e, wall, v)),
    decreases values.len(),
{
    if values.len() > 0 {
        let front = values.drop_last();
        lemma_all_are_added(set, e, wall, front);
        assert forall|v: Seq<char>| values.contains(v) == (front.contains(v) || v
            == values.last()) by {
            if values.contains(v) && v != values.last() {
                let i = choose|i: int| 0 <= i < values.len() && values[i] == v;
                assert(front[i] == v);
            }
            if front.contains(v) {
                let i = choose|i: int| 0 <= i < front.len() && front[i] == v;
                assert(values[i] == v);
            }
            assert(values[values.len() - 1] == values.last());
        }
        assert forall|v: Seq<char>, tag: Timestamp| #[trigger]
            with_all(set, e, wall, values).elements.contains((v, tag)) <==> (set.elements.contains(
                (v, tag),
            ) || (values.contains(v) && tag == tag_of(e, wall, v))) by {
            assert(values.contains(v) == (front.contains(v) || v == values.last()));
            assert(with_all(set, e, wall, front).elements.contains((v, tag)) <==> (
            set.elements.contains((v, tag)) || (front.contains(v) && tag == tag_of(e, wall, v))));
        }
    }
}

/// A created item has the title, the kind and the urgency of its payload, and the
/// size, the description and the parent that the payload gives; those that it does
/// not give stay. Its labels are there beside those that were. Nothing else changes.
pub proof fn create_sets_what_its_payload_says(s: ItemView, e: EventView, wall: WallTime)
    requires
        e.event_type == EventType::Create,
        e.data is Create,
    ensures
        ({
            let d = e.data->Create_0;
            let t = applied(s, e, wall);
            &&& holds_write(t.title, e, d.title)
            &&& holds_write(t.kind, e, d.kind)
            &&& holds_write(t.urgency, e, d.urgency)
            &&& d.size is Some ==> holds_write(t.size, e, d.size)
            &&& d.size is None ==> t.size == s.size
            &&& d.description is Some ==> holds_write(t.description, e, d.description->0)
            &&& d.description is None ==> t.description == s.description
            &&& d.parent is Some ==> holds_write(t.parent, e, d.parent->0)
            &&& d.parent is None ==> t.parent == s.parent
            &&& forall|label: Seq<char>|
                d.labels.contains(label) && addable(s.labels, e, wall, label)
                    ==> #[trigger] t.labels.has(label)
            &&& forall|label: Seq<char>|
                !d.labels.contains(label) ==> #[trigger] t.labels.has(label) == s.labels.has(label)
            &&& t.state == s.state
            &&& t.assignees == s.assignees
            &&& t.blocked_by == s.blocked_by
            &&& t.related_to == s.related_to
            &&& t.comments == s.comments
            &&& t.deleted == s.deleted
        }),
{
    let d = e.data->Create_0;
    let t = applied(s, e, wall);
    lemma_all_are_added(s.labels, e, wall, d.labels);
    assert forall|label: Seq<char>|
        d.labels.contains(label) && addable(s.labels, e, wall, label) implies #[trigger] t.labels.has(
        label,
    ) by {
        assert(t.labels.elements.contains((label, tag_of(e, wall, label))));
        assert(t.labels.live(label, tag_of(e, wall, label)));
    }
    assert forall|label: Seq<char>| !d.labels.contains(label) implies #[trigger] t.labels.has(label)
        == s.labels.has(label) by {
        assert forall|tag: Timestamp| #[trigger] t.labels.live(label, tag) == s.labels.live(
            label,
            tag,
        ) by {
            assert(t.labels.elements.contains((label, tag)) == s.labels.elements.contains(
                (label, tag),
            ));
        }
        lemma_same_live(t.labels, s.labels, label);
    }
}

/// An item that a first event creates has just what the event says.
pub proof fn new_item_is_what_its_event_says(e: EventView, wall: WallTime)
    requires
        e.event_type == EventType::Create,
        e.data is Create,
    ensures
        ({
            let d = e.data->Create_0;
            let t = applied(ItemView::fresh(), e, wall);
            &&& t.title.value == d.title
            &&& t.kind.value == d.kind
            &&& t.urgency.value == d.urgency
            &&& t.size.value == d.size
            &&& t.description.value == if d.description is Some {
                d.description->0
            } else {
                Seq::empty()
            }
            &&& t.parent.value == if d.parent is Some {
                d.parent->0
            } else {
                Seq::empty()
            }
            &&& forall|label: Seq<char>| #[trigger]
                t.labels.has(label) <==> d.labels.contains(label)
            &&& t.state.phase == Phase::Open
            &&& t.state.epoch == 0
            &&& !t.deleted.value
            &&& forall|v: Seq<char>| !#[trigger] t.assignees.has(v)
            &&& forall|v: Seq<char>| !#[trigger] t.blocked_by.has(v)
            &&& forall|v: Seq<char>| !#[trigger] t.related_to.has(v)
            &&& forall|v: Seq<char>| !#[trigger] t.comments.contains(v)
        }),
{
    let s = ItemView::fresh();
    let t = applied(s, e, wall);
    create_sets_what_its_payload_says(s, e, wall);
    assert forall|label: Seq<char>| #[trigger] t.labels.has(label) <==> e.data->Create_0.labels.contains(
        label,
    ) by {
        assert(addable(s.labels, e, wall, label));
    }
}

/// An update of a register writes its value there and nowhere else. A title, a kind
/// or an urgency that does not fit changes nothing; a description, a size or a
/// parent that does not fit is cleared.
pub proof fn update_writes_its_field(s: ItemView, e: EventView, wall: WallTime)
    requires
        e.event_type == EventType::Update,
        e.data is Update,
    ensures
        ({
            let field = e.data->Update_0.field;
            let value = e.data->Update_0.value;
            let t = applied(s, e, wall);
            let text = value->Text_0;
            &&& field == "title"@ && value is Text ==> holds_write(t.title, e, text)
            &&& field != "title"@ || !(value is Text) ==> t.title == s.title
            &&& field == "description"@ ==> holds_write(
                t.description,
                e,
                if value is Text {
                    text
                } else {
                    Seq::empty()
                },
            )
            &&& field != "description"@ ==> t.description == s.description
            &&& field == "parent"@ ==> holds_write(
                t.parent,
                e,
                if value is Text {
                    text
                } else {
                    Seq::empty()
                },
            )
            &&& field != "parent"@ ==> t.parent == s.parent
            &&& field != "kind"@ ==> t.kind == s.kind
            &&& field != "urgency"@ ==> t.urgency == s.urgency
            &&& field != "size"@ ==> t.size == s.size
            &&& field != "labels"@ ==> t.labels == s.labels
            &&& t.state == s.state
            &&& t.assignees == s.assignees
            &&& t.blocked_by == s.blocked_by
            &&& t.related_to == s.related_to
            &&& t.comments == s.comments
            &&& t.deleted == s.deleted
        }),
{
    lemma_field_names();
}

proof fn lemma_field_names()
    ensures
        "title"@.len() == 5,
        "title"@[0] == 't',
        "description"@.len() == 11,
        "kind"@.len() == 4,
        "kind"@[0] == 'k',
        "size"@.len() == 4,
        "size"@[0] == 's',
        "urgency"@.len() == 7,
        "parent"@.len() == 6,
        "parent"@[0] == 'p',
        "labels"@.len() == 6,
        "labels"@[0] == 'l',
{
    reveal_strlit("title");
    reveal_strlit("description");
    reveal_strlit("kind");
    reveal_strlit("size");
    reveal_strlit("urgency");
    reveal_strlit("parent");
    reveal_strlit("labels");
}

/// An update writes a kind, an urgency or a size by its name, whichever it is.
pub proof fn update_writes_what_is_named(
    s: ItemView,
    e: EventView,
    wall: WallTime,
    kind: Kind,
    urgency: Urgency,
    size: Size,
)
    requires
        e.event_type == EventType::Update,
        e.data is Update,
    ensures
        ({
            let field = e.data->Update_0.field;
            let value = e.data->Update_0.value;
            let t = applied(s, e, wall);
            &&& field == "kind"@ && value == JsonTree::Text(kind.name()) ==> holds_write(
                t.kind,
                e,
                kind,
            )
            &&& field == "kind"@ && !(value is Text) ==> t.kind == s.kind
            &&& field == "urgency"@ && value == JsonTree::Text(urgency.name()) ==> holds_write(
                t.urgency,
                e,
                urgency,
            )
            &&& field == "urgency"@ && !(value is Text) ==> t.urgency == s.urgency
            &&& field == "size"@ && value == JsonTree::Text(size.name()) ==> holds_write(
                t.size,
                e,
                Some(size),
            )
            &&& field == "size"@ && !(value is Text) ==> holds_write(t.size, e, None)
        }),
{
    lemma_field_names();
    kind.name_reads_back();
    urgency.name_reads_back();
    size.name_reads_back();
}

/// An update of the labels adds or removes the one that it names, and leaves the
/// others.
pub proof fn update_changes_one_label(
    s: ItemView,
    e: EventView,
    wall: WallTime,
    m: Map<Seq<char>, JsonTree>,
    action: Seq<char>,
    label: Seq<char>,
)
    requires
        e.event_type == EventType::Update,
        e.data is Update,
        e.data->Update_0.field == "labels"@,
        e.data->Update_0.value == JsonTree::Object(m),
        m.contains_key("action"@),
        m["action"@] == JsonTree::Text(action),
        m.contains_key("label"@),
        m["label"@] == JsonTree::Text(label),
        label.len() > 0,
    ensures
        ({
            let t = applied(s, e, wall);
            &&& action == "remove"@ ==> !t.labels.has(label)
            &&& action == "add"@ && addable(s.labels, e, wall, label) ==> t.labels.has(label)
            &&& action != "add"@ && action != "remove"@ ==> t.labels == s.labels
            &&& same_apart_from(t.labels, s.labels, label)
        }),
{
    lemma_field_names();
    reveal_strlit("add");
    reveal_strlit("remove");
    assert("add"@.len() != "remove"@.len());
    lemma_remove_shows(s.labels, label);
    let t = applied(s, e, wall);
    if action == "add"@ {
        if addable(s.labels, e, wall, label) {
            lemma_add_shows(s.labels, e, wall, label);
        }
        assert forall|other: Seq<char>| other != label implies #[trigger] t.labels.has(other)
            == s.labels.has(other) by {
            lemma_same_live(t.labels, s.labels, other);
        }
    }
}

/// The phase that a lifecycle state names is the one that an item moved to it is
/// in. A move back starts the next epoch, any other move stays in the epoch.
/// Nothing else changes.
pub proof fn move_reaches_its_state(s: ItemView, e: EventView, wall: WallTime)
    requires
        e.event_type == EventType::Move,
        e.data is Move,
        s.state.epoch < u64::MAX,
    ensures
        ({
            let target = e.data->Move_0.state;
            let t = applied(s, e, wall);
            let back = match (target, s.state.phase) {
                (State::Open, Phase::Open) => false,
                (State::Open, _) => true,
                (State::Doing, Phase::Open) => false,
                (State::Doing, Phase::Doing) => false,
                (State::Doing, _) => true,
                (State::Done, Phase::Archived) => true,
                (State::Done, _) => false,
                (State::Archived, _) => false,
            };
            &&& target == State::Open <==> t.state.phase == Phase::Open
            &&& target == State::Doing <==> t.state.phase == Phase::Doing
            &&& target == State::Done <==> t.state.phase == Phase::Done
            &&& target == State::Archived <==> t.state.phase == Phase::Archived
            &&& back ==> t.state.epoch == s.state.epoch + 1
            &&& !back ==> t.state.epoch == s.state.epoch
            &&& t == ItemView {
                state: t.state,
                created_at: t.created_at,
                updated_at: t.updated_at,
                ..s
            }
        }),
{
}

/// An assignment brings its agent in or takes it out, and changes nothing else.
pub proof fn assignment_takes_effect(s: ItemView, e: EventView, wall: WallTime)
    requires
        e.event_type == EventType::Assign,
        e.data is Assign,
    ensures
        ({
            let d = e.data->Assign_0;
            let t = applied(s, e, wall);
            &&& d.action == AssignAction::Assign && addable(s.assignees, e, wall, d.agent)
                ==> t.assignees.has(d.agent)
            &&& d.action == AssignAction::Unassign ==> !t.assignees.has(d.agent)
            &&& same_apart_from(t.assignees, s.assignees, d.agent)
            &&& t == ItemView {
                assignees: t.assignees,
                created_at: t.created_at,
                updated_at: t.updated_at,
                ..s
            }
        }),
{
    let d = e.data->Assign_0;
    let t = applied(s, e, wall);
    lemma_remove_shows(s.assignees, d.agent);
    if d.action == AssignAction::Assign {
        if addable(s.assignees, e, wall, d.agent) {
            lemma_add_shows(s.assignees, e, wall, d.agent);
        }
        assert forall|other: Seq<char>| other != d.agent implies #[trigger] t.assignees.has(other)
            == s.assignees.has(other) by {
            lemma_same_live(t.assignees, s.assignees, other);
        }
    }
}

/// A comment is kept by the hash of its event beside those that were, and changes
/// nothing else.
pub proof fn comment_is_kept(s: ItemView, e: EventView, wall: WallTime)
    requires
        e.event_type == EventType::Comment,
        e.data is Comment,
    ensures
        ({
            let t = applied(s, e, wall);
            &&& forall|h: Seq<char>| #[trigger]
                t.comments.contains(h) <==> s.comments.contains(h) || h == e.event_hash
            &&& t == ItemView {
                comments: t.comments,
                created_at: t.created_at,
                updated_at: t.updated_at,
                ..s
            }
        }),
{
}

/// A link brings its target into the set for the kind of the link and changes
/// nothing else; a link of another kind changes no set.
pub proof fn link_takes_effect(s: ItemView, e: EventView, wall: WallTime)
    requires
        e.event_type == EventType::Link,
        e.data is Link,
    ensures
        ({
            let d = e.data->Link_0;
            let t = applied(s, e, wall);
            let blocks = d.link_type == "blocks"@ || d.link_type == "blocked_by"@;
            let relates = d.link_type == "related_to"@ || d.link_type == "related"@;
            &&& blocks && addable(s.blocked_by, e, wall, d.target) ==> t.blocked_by.has(d.target)
            &&& relates && addable(s.related_to, e, wall, d.target) ==> t.related_to.has(d.target)
            &&& !blocks ==> t.blocked_by == s.blocked_by
            &&& !relates ==> t.related_to == s.related_to
            &&& same_apart_from(t.blocked_by, s.blocked_by, d.target)
            &&& same_apart_from(t.related_to, s.related_to, d.target)
            &&& t == ItemView {
                blocked_by: t.blocked_by,
                related_to: t.related_to,
                created_at: t.created_at,
                updated_at: t.updated_at,
                ..s
            }
        }),
{
    let d = e.data->Link_0;
    let t = applied(s, e, wall);
    lemma_link_names();
    if addable(s.blocked_by, e, wall, d.target) {
        lemma_add_shows(s.blocked_by, e, wall, d.target);
    }
    if addable(s.related_to, e, wall, d.target) {
        lemma_add_shows(s.related_to, e, wall, d.target);
    }
    assert forall|other: Seq<char>| other != d.target implies #[trigger] t.blocked_by.has(other)
        == s.blocked_by.has(other) by {
        lemma_same_live(t.blocked_by, s.blocked_by, other);
    }
    assert forall|other: Seq<char>| other != d.target implies #[trigger] t.related_to.has(other)
        == s.related_to.has(other) by {
        lemma_same_live(t.related_to, s.related_to, other);
    }
}

proof fn lemma_link_names()
    ensures
        "blocks"@.len() == 6,
        "blocked_by"@.len() == 10,
        "blocked_by"@[0] == 'b',
        "related_to"@.len() == 10,
        "related_to"@[0] == 'r',
        "related"@.len() == 7,
{
    reveal_strlit("blocks");
    reveal_strlit("blocked_by");
    reveal_strlit("related_to");
    reveal_strlit("related");
}

/// An unlink takes its target out of the set for the kind of the link, out of both
/// without a kind, and changes nothing else.
pub proof fn unlink_takes_effect(s: ItemView, e: EventView, wall: WallTime)
    requires
        e.event_type == EventType::Unlink,
        e.data is Unlink,
    ensures
        ({
            let d = e.data->Unlink_0;
            let kind = d.link_type;
            let t = applied(s, e, wall);
            let blocks = kind == Some("blocks"@) || kind == Some("blocked_by"@);
            let relates = kind == Some("related_to"@) || kind == Some("related"@);
            &&& kind is None || blocks ==> !t.blocked_by.has(d.target)
            &&& kind is None || relates ==> !t.related_to.has(d.target)
            &&& kind is Some && !blocks ==> t.blocked_by == s.blocked_by
            &&& kind is Some && !relates ==> t.related_to == s.related_to
            &&& same_apart_from(t.blocked_by, s.blocked_by, d.target)
            &&& same_apart_from(t.related_to, s.related_to, d.target)
            &&& t == ItemView {
                blocked_by: t.blocked_by,
                related_to: t.related_to,
                created_at: t.created_at,
                updated_at: t.updated_at,
                ..s
            }
        }),
{
    let d = e.data->Unlink_0;
    lemma_link_names();
    lemma_remove_shows(s.blocked_by, d.target);
    lemma_remove_shows(s.related_to, d.target);
}

/// A deletion marks the item as deleted, whatever its payload, and changes nothing
/// else.
pub proof fn delete_marks_the_item(s: ItemView, e: EventView, wall: WallTime)
    requires
        e.event_type == EventType::Delete,
    ensures
        ({
            let t = applied(s, e, wall);
            &&& holds_write(t.deleted, e, true)
            &&& t == ItemView {
                deleted: t.deleted,
                created_at: t.created_at,
                updated_at: t.updated_at,
                ..s
            }
        }),
{
}

/// A compaction puts its summary in the place of the description and changes
/// nothing else.
pub proof fn compaction_replaces_the_description(s: ItemView, e: EventView, wall: WallTime)
    requires
        e.event_type == EventType::Compact,
        e.data is Compact,
    ensures
        ({
            let t = applied(s, e, wall);
            &&& holds_write(t.description, e, e.data->Compact_0.summary)
            &&& t == ItemView {
                description: t.description,
                created_at: t.created_at,
                updated_at: t.updated_at,
                ..s
            }
        }),
{
}

/// Snapshots and redactions change the times alone, and so does an event whose
/// payload is not of its type, unless it deletes the item.
pub proof fn other_events_change_the_times_alone(s: ItemView, e: EventView, wall: WallTime)
    requires
        e.event_type == EventType::Snapshot || e.event_type == EventType::Redact || (
        e.data.event_type() != e.event_type && e.event_type != EventType::Delete),
    ensures
        ({
            let t = applied(s, e, wall);
            t == ItemView { created_at: t.created_at, updated_at: t.updated_at, ..s }
        }),
{
}

/// Every event that is not before the epoch moves the times: an item was created at
/// the earliest of its events and updated at the latest. No time stands for none.
pub proof fn times_span_the_events(s: ItemView, e: EventView, wall: WallTime)
    requires
        e.wall_ts_us > 0,
    ensures
        ({
            let t = applied(s, e, wall);
            let at = e.wall_ts_us as int;
            &&& t.created_at <= at <= t.updated_at
            &&& t.updated_at >= s.updated_at
            &&& s.created_at != 0 ==> t.created_at <= s.created_at
            &&& t.created_at == at || (t.created_at == s.created_at && s.created_at != 0)
            &&& t.updated_at == at || t.updated_at == s.updated_at
        }),
{
}

/// Of two writes by events, a merge keeps that of the later event, whatever order
/// they are merged in. Of two at one time it keeps that of the greater agent, and
/// of two by one agent that of the greater hash.
pub proof fn merge_keeps_the_later_write<V>(a: Reg<V>, b: Reg<V>, e: EventView, f: EventView)
    requires
        a.write == write_of(e),
        b.write == write_of(f),
        e.wall_ts_us >= 0,
        f.wall_ts_us >= 0,
        f.wall_ts_us > e.wall_ts_us || (f.wall_ts_us == e.wall_ts_us && (lex_lt(e.agent, f.agent)
            || (e.agent == f.agent && lex_lt(e.event_hash, f.event_hash)))),
    ensures
        a.join(b) == b,
        b.join(a) == b,
{
    bit_stamps_are_concurrent_or_same(text_hash(e.event_hash), text_hash(f.event_hash));
    lex_lt_asymmetric(e.agent, f.agent);
    lex_lt_asymmetric(e.event_hash, f.event_hash);
}

/// A merge takes nothing that neither state has. Each register holds what one of
/// the two holds. A comment is there exactly if it was in one of them. The earlier
/// creation counts, where there is one, and the later update. A deletion that both
/// have stays.
pub proof fn merge_takes_from_both(a: ItemView, b: ItemView)
    ensures
        ({
            let m = a.join(b);
            &&& m.title == a.title || m.title == b.title
            &&& m.description == a.description || m.description == b.description
            &&& m.kind == a.kind || m.kind == b.kind
            &&& m.size == a.size || m.size == b.size
            &&& m.urgency == a.urgency || m.urgency == b.urgency
            &&& m.parent == a.parent || m.parent == b.parent
            &&& m.deleted == a.deleted || m.deleted == b.deleted
            &&& m.state == a.state || m.state == b.state
            &&& m.state.epoch >= a.state.epoch && m.state.epoch >= b.state.epoch
            &&& forall|h: Seq<char>| #[trigger]
                m.comments.contains(h) <==> a.comments.contains(h) || b.comments.contains(h)
            &&& m.updated_at >= a.updated_at && m.updated_at >= b.updated_at
            &&& m.updated_at == a.updated_at || m.updated_at == b.updated_at
            &&& a.created_at != 0 ==> 0 < m.created_at <= a.created_at
            &&& b.created_at != 0 ==> 0 < m.created_at <= b.created_at
            &&& m.created_at == a.created_at || m.created_at == b.created_at
            &&& merged_sets(m.assignees, a.assignees, b.assignees)
            &&& merged_sets(m.labels, a.labels, b.labels)
            &&& merged_sets(m.blocked_by, a.blocked_by, b.blocked_by)
            &&& merged_sets(m.related_to, a.related_to, b.related_to)
        }),
{
    let m = a.join(b);
    lemma_sets_merge(a.assignees, b.assignees);
    lemma_sets_merge(a.labels, b.labels);
    lemma_sets_merge(a.blocked_by, b.blocked_by);
    lemma_sets_merge(a.related_to, b.related_to);
}

/// Whether a set is what two merge to: a tag is live in it exactly if it is live in
/// one of them and the other has not removed it.
pub open spec fn merged_sets(
    m: Tagged<Seq<char>>,
    a: Tagged<Seq<char>>,
    b: Tagged<Seq<char>>,
) -> bool {
    forall|v: Seq<char>, tag: Timestamp| #[trigger]
        m.live(v, tag) <==> (a.live(v, tag) && !b.tombstone.contains((v, tag))) || (b.live(v, tag)
            && !a.tombstone.contains((v, tag)))
}

proof fn lemma_sets_merge(a: Tagged<Seq<char>>, b: Tagged<Seq<char>>)
    ensures
        merged_sets(a.union(b), a, b),
{
}

}
