//! What events do to the sets that are built from them.

use crate::crdt::orset::{
    after_event, after_events, change_of, seen_tags, Change, OrSetField, Replay, Tagged,
};
use crate::crdt::tags::{event_tag, unsigned};
use crate::crdt::Timestamp;
use crate::dag::graph::{precedes, Graph};
use crate::event::data::AssignAction;
use crate::event::json::JsonTree;
use crate::event::types::EventType;
use crate::event::EventView;
use vstd::prelude::*;

verus! {

/// Whether an event has another tag than those before it in a sequence: another
/// time, or else another tag.
pub open spec fn newly_tagged(events: Seq<EventView>, e: EventView) -> bool {
    forall|i: int|
        0 <= i < events.len() ==> (#[trigger] events[i]).wall_ts_us != e.wall_ts_us || event_tag(
            events[i].wall_ts_us,
            events[i].agent,
            events[i].event_hash,
        ) != event_tag(e.wall_ts_us, e.agent, e.event_hash)
}

/// Whether two sets hold the same values, but for one.
pub open spec fn same_but_for(
    a: Tagged<Seq<char>>,
    b: Tagged<Seq<char>>,
    value: Seq<char>,
) -> bool {
    forall|other: Seq<char>| other != value ==> #[trigger] a.has(other) == b.has(other)
}

/// Events at different times give different tags.
pub proof fn times_tell_tags_apart(
    a: i64,
    b: i64,
    agents: (Seq<char>, Seq<char>),
    hashes: (Seq<char>, Seq<char>),
)
    requires
        a != b,
    ensures
        event_tag(a, agents.0, hashes.0) != event_tag(b, agents.1, hashes.1),
{
    assert(unsigned(a) != unsigned(b));
}

/// What is in a set came with what it started from or with one of the events, and
/// so did what was taken out of it.
proof fn lemma_tags_come_from_events(
    base: Tagged<Seq<char>>,
    events: Seq<EventView>,
    field: OrSetField,
    dag: Option<Graph>,
    value: Seq<char>,
    tag: Timestamp,
)
    requires
        !base.elements.contains((value, tag)),
        !base.tombstone.contains((value, tag)),
        forall|i: int|
            0 <= i < events.len() ==> event_tag(
                (#[trigger] events[i]).wall_ts_us,
                events[i].agent,
                events[i].event_hash,
            ) != tag,
    ensures
        !after_events(base, events, field, dag).set.elements.contains((value, tag)),
        !after_events(base, events, field, dag).set.tombstone.contains((value, tag)),
    decreases events.len(),
{
    if events.len() > 0 {
        let front = events.drop_last();
        assert forall|i: int| 0 <= i < front.len() implies event_tag(
            (#[trigger] front[i]).wall_ts_us,
            front[i].agent,
            front[i].event_hash,
        ) != tag by {
            assert(front[i] == events[i]);
        }
        lemma_tags_come_from_events(base, front, field, dag, value, tag);
        let before = after_events(base, front, field, dag);
        let e = events[events.len() - 1];
        if let Some(Change::Remove(v)) = change_of(e, field) {
            assert(!seen_tags(before, v, e.event_hash, dag).contains(tag) || v != value) by {
                assert(!before.set.live(value, tag));
            }
        }
    }
}

/// A value that the last event adds with a new tag is there, and no other value
/// comes or goes.
proof fn lemma_add_is_there(
    base: Tagged<Seq<char>>,
    events: Seq<EventView>,
    field: OrSetField,
    dag: Option<Graph>,
    value: Seq<char>,
)
    requires
        events.len() > 0,
        change_of(events.last(), field) == Some(Change::Add(value)),
        newly_tagged(events.drop_last(), events.last()),
        base == Tagged::<Seq<char>>::empty(),
    ensures
        after_events(base, events, field, dag).set.has(value),
        same_but_for(
            after_events(base, events, field, dag).set,
            after_events(base, events.drop_last(), field, dag).set,
            value,
        ),
{
    let e = events.last();
    let front = events.drop_last();
    let tag = event_tag(e.wall_ts_us, e.agent, e.event_hash);
    assert forall|i: int| 0 <= i < front.len() implies event_tag(
        (#[trigger] front[i]).wall_ts_us,
        front[i].agent,
        front[i].event_hash,
    ) != tag by {
        if front[i].wall_ts_us != e.wall_ts_us {
            times_tell_tags_apart(
                front[i].wall_ts_us,
                e.wall_ts_us,
                (front[i].agent, e.agent),
                (front[i].event_hash, e.event_hash),
            );
        }
    }
    lemma_tags_come_from_events(base, front, field, dag, value, tag);
    let before = after_events(base, front, field, dag).set;
    let after = after_events(base, events, field, dag).set;
    assert(after.live(value, tag));
    assert forall|other: Seq<char>| other != value implies #[trigger] after.has(other)
        == before.has(other) by {
        lemma_same_tags(after, before, other);
    }
}

proof fn lemma_same_tags(a: Tagged<Seq<char>>, b: Tagged<Seq<char>>, value: Seq<char>)
    requires
        forall|tag: Timestamp| #[trigger] a.live(value, tag) == b.live(value, tag),
    ensures
        a.has(value) == b.has(value),
{
    if a.has(value) {
        let tag = choose|tag: Timestamp| #[trigger] a.live(value, tag);
        assert(b.live(value, tag));
    }
    if b.has(value) {
        let tag = choose|tag: Timestamp| #[trigger] b.live(value, tag);
        assert(a.live(value, tag));
    }
}

/// A value that the last event removes is gone where no graph says what the event
/// has seen, and no other value comes or goes.
proof fn lemma_removed_is_gone(
    base: Tagged<Seq<char>>,
    events: Seq<EventView>,
    field: OrSetField,
    value: Seq<char>,
)
    requires
        events.len() > 0,
        change_of(events.last(), field) == Some(Change::Remove(value)),
    ensures
        !after_events(base, events, field, None).set.has(value),
        same_but_for(
            after_events(base, events, field, None).set,
            after_events(base, events.drop_last(), field, None).set,
            value,
        ),
{
    let before = after_events(base, events.drop_last(), field, None);
    let after = after_events(base, events, field, None).set;
    let seen = seen_tags(before, value, events.last().event_hash, None);
    assert forall|tag: Timestamp| !#[trigger] after.live(value, tag) by {
        if before.set.live(value, tag) {
            assert(seen.contains(tag));
        }
    }
    assert forall|other: Seq<char>| other != value implies #[trigger] after.has(other)
        == before.set.has(other) by {
        lemma_same_tags(after, before.set, other);
    }
}

/// Labels follow the events: after a last event that updates the labels, a label
/// that it adds is in the set that is built from the events, and one that it
/// removes is not. The other labels stay as the earlier events left them.
pub proof fn last_label_update_takes_effect(
    events: Seq<EventView>,
    m: Map<Seq<char>, JsonTree>,
    action: Seq<char>,
    label: Seq<char>,
)
    requires
        events.len() > 0,
        events.last().event_type == EventType::Update,
        events.last().data is Update,
        events.last().data->Update_0.field == "labels"@,
        events.last().data->Update_0.value == JsonTree::Object(m),
        m.contains_key("action"@),
        m["action"@] == JsonTree::Text(action),
        m.contains_key("label"@),
        m["label"@] == JsonTree::Text(label),
        newly_tagged(events.drop_last(), events.last()),
    ensures
        ({
            let labels = after_events(Tagged::empty(), events, OrSetField::Labels, None).set;
            let earlier = after_events(
                Tagged::empty(),
                events.drop_last(),
                OrSetField::Labels,
                None,
            ).set;
            &&& action == "remove"@ ==> !labels.has(label)
            &&& action == "add"@ ==> labels.has(label)
            &&& same_but_for(labels, earlier, label)
            &&& action != "add"@ && action != "remove"@ ==> labels == earlier
        }),
{
    reveal_strlit("add");
    reveal_strlit("remove");
    assert("add"@.len() != "remove"@.len());
    let none = Tagged::<Seq<char>>::empty();
    if action == "add"@ {
        lemma_add_is_there(none, events, OrSetField::Labels, None, label);
    } else if action == "remove"@ {
        lemma_removed_is_gone(none, events, OrSetField::Labels, label);
    }
}

/// Assignees follow the events: after a last event that assigns an agent, the
/// agent is in the set that is built from the events, and after one that unassigns
/// an agent it is not. The other assignees stay as the earlier events left them.
pub proof fn last_assignment_takes_effect(events: Seq<EventView>)
    requires
        events.len() > 0,
        events.last().data is Assign,
        newly_tagged(events.drop_last(), events.last()),
    ensures
        ({
            let d = events.last().data->Assign_0;
            let agents = after_events(Tagged::empty(), events, OrSetField::Assignees, None).set;
            let earlier = after_events(
                Tagged::empty(),
                events.drop_last(),
                OrSetField::Assignees,
                None,
            ).set;
            &&& agents.has(d.agent) <==> d.action == AssignAction::Assign
            &&& same_but_for(agents, earlier, d.agent)
        }),
{
    let d = events.last().data->Assign_0;
    let none = Tagged::<Seq<char>>::empty();
    match d.action {
        AssignAction::Assign => {
            lemma_add_is_there(none, events, OrSetField::Assignees, None, d.agent);
        },
        AssignAction::Unassign => {
            lemma_removed_is_gone(none, events, OrSetField::Assignees, d.agent);
        },
    }
}

/// Links follow the events: after a last event that links an item, the item is in
/// the set for the kind of the link, and the other set stays as it was.
pub proof fn last_link_takes_effect(events: Seq<EventView>, field: OrSetField)
    requires
        events.len() > 0,
        events.last().event_type == EventType::Link,
        events.last().data is Link,
        field == OrSetField::BlockedBy || field == OrSetField::RelatedTo,
        newly_tagged(events.drop_last(), events.last()),
    ensures
        ({
            let d = events.last().data->Link_0;
            let blocks = d.link_type == "blocks"@ || d.link_type == "blocked_by"@;
            let relates = d.link_type == "related_to"@ || d.link_type == "related"@;
            let linked = after_events(Tagged::empty(), events, field, None).set;
            let earlier = after_events(Tagged::empty(), events.drop_last(), field, None).set;
            &&& field == OrSetField::BlockedBy && blocks ==> linked.has(d.target)
            &&& field == OrSetField::RelatedTo && relates ==> linked.has(d.target)
            &&& field == OrSetField::BlockedBy && !blocks ==> linked == earlier
            &&& field == OrSetField::RelatedTo && !relates ==> linked == earlier
            &&& same_but_for(linked, earlier, d.target)
        }),
{
    let d = events.last().data->Link_0;
    let none = Tagged::<Seq<char>>::empty();
    if change_of(events.last(), field) == Some(Change::Add(d.target)) {
        lemma_add_is_there(none, events, field, None, d.target);
    }
}

/// After a last event that unlinks an item, the item is in no set for the kind of
/// the link; without a kind it is in neither. Links of another kind stay.
pub proof fn last_unlink_takes_effect(events: Seq<EventView>, field: OrSetField)
    requires
        events.len() > 0,
        events.last().event_type == EventType::Unlink,
        events.last().data is Unlink,
        field == OrSetField::BlockedBy || field == OrSetField::RelatedTo,
    ensures
        ({
            let d = events.last().data->Unlink_0;
            let kind = d.link_type;
            let blocks = kind == Some("blocks"@) || kind == Some("blocked_by"@);
            let relates = kind == Some("related_to"@) || kind == Some("related"@);
            let linked = after_events(Tagged::empty(), events, field, None).set;
            let earlier = after_events(Tagged::empty(), events.drop_last(), field, None).set;
            &&& kind is None ==> !linked.has(d.target)
            &&& field == OrSetField::BlockedBy && blocks ==> !linked.has(d.target)
            &&& field == OrSetField::RelatedTo && relates ==> !linked.has(d.target)
            &&& field == OrSetField::BlockedBy && kind is Some && !blocks ==> linked == earlier
            &&& field == OrSetField::RelatedTo && kind is Some && !relates ==> linked == earlier
            &&& same_but_for(linked, earlier, d.target)
        }),
{
    let d = events.last().data->Unlink_0;
    let none = Tagged::<Seq<char>>::empty();
    if change_of(events.last(), field) == Some(Change::Remove(d.target)) {
        lemma_removed_is_gone(none, events, field, d.target);
    }
}

/// An event that is not about a set leaves it as it was: labels change by updates
/// of the labels alone, assignees by assignments, links by links and unlinks.
pub proof fn other_events_leave_a_set(
    base: Tagged<Seq<char>>,
    events: Seq<EventView>,
    field: OrSetField,
    dag: Option<Graph>,
)
    requires
        events.len() > 0,
        match field {
            OrSetField::Labels => events.last().event_type != EventType::Update || (
            events.last().data is Update && events.last().data->Update_0.field != "labels"@),
            OrSetField::Assignees => !(events.last().data is Assign),
            _ => events.last().event_type != EventType::Link && events.last().event_type
                != EventType::Unlink,
        },
    ensures
        after_events(base, events, field, dag).set == after_events(
            base,
            events.drop_last(),
            field,
            dag,
        ).set,
{
}

/// No events, no change.
pub proof fn set_without_events_is_the_base(
    base: Tagged<Seq<char>>,
    field: OrSetField,
    dag: Option<Graph>,
)
    ensures
        after_events(base, Seq::empty(), field, dag).set == base,
{
}

/// Which event made a tag: the one that has it, if tags are told apart.
proof fn lemma_made_by_its_event(
    base: Tagged<Seq<char>>,
    events: Seq<EventView>,
    field: OrSetField,
    dag: Option<Graph>,
    i: int,
)
    requires
        0 <= i < events.len(),
        change_of(events[i], field) is Some,
        change_of(events[i], field)->0 is Add,
        forall|j: int|
            i < j < events.len() ==> event_tag(
                (#[trigger] events[j]).wall_ts_us,
                events[j].agent,
                events[j].event_hash,
            ) != event_tag(events[i].wall_ts_us, events[i].agent, events[i].event_hash),
    ensures
        ({
            let tag = event_tag(events[i].wall_ts_us, events[i].agent, events[i].event_hash);
            let made_by = after_events(base, events, field, dag).made_by;
            made_by.contains_key(tag) && made_by[tag] == events[i].event_hash
        }),
    decreases events.len(),
{
    if i < events.len() - 1 {
        let front = events.drop_last();
        assert forall|j: int| i < j < front.len() implies event_tag(
            (#[trigger] front[j]).wall_ts_us,
            front[j].agent,
            front[j].event_hash,
        ) != event_tag(front[i].wall_ts_us, front[i].agent, front[i].event_hash) by {
            assert(front[j] == events[j]);
        }
        lemma_made_by_its_event(base, front, field, dag, i);
        assert(events.last() == events[events.len() - 1]);
    }
}

/// Whether an event takes a value out of a set although it does not come after
/// the event that added it, or not at all.
pub open spec fn spares(
    e: EventView,
    field: OrSetField,
    dag: Option<Graph>,
    value: Seq<char>,
    adder: Seq<char>,
) -> bool {
    change_of(e, field) != Some(Change::Remove(value)) || (dag is Some && !precedes(
        dag->0,
        adder,
        e.event_hash,
    ))
}

/// Adds win: a value that an event adds stays, as long as every later event that
/// removes it is one that the adding event does not come before.
pub proof fn add_stays_until_a_remove_has_seen_it(
    events: Seq<EventView>,
    field: OrSetField,
    dag: Option<Graph>,
    value: Seq<char>,
    i: int,
)
    requires
        0 <= i < events.len(),
        change_of(events[i], field) == Some(Change::Add(value)),
        forall|j: int|
            #![trigger events[j]]
            0 <= j < events.len() && j != i ==> events[j].wall_ts_us != events[i].wall_ts_us,
        forall|j: int|
            i < j < events.len() ==> spares(
                #[trigger] events[j],
                field,
                dag,
                value,
                events[i].event_hash,
            ),
    ensures
        after_events(Tagged::empty(), events, field, dag).set.has(value),
{
    lemma_tag_stays(events, field, dag, value, i);
}

proof fn lemma_tag_stays(
    events: Seq<EventView>,
    field: OrSetField,
    dag: Option<Graph>,
    value: Seq<char>,
    i: int,
)
    requires
        0 <= i < events.len(),
        change_of(events[i], field) == Some(Change::Add(value)),
        forall|j: int|
            #![trigger events[j]]
            0 <= j < events.len() && j != i ==> events[j].wall_ts_us != events[i].wall_ts_us,
        forall|j: int|
            i < j < events.len() ==> spares(
                #[trigger] events[j],
                field,
                dag,
                value,
                events[i].event_hash,
            ),
    ensures
        after_events(Tagged::empty(), events, field, dag).set.live(
            value,
            event_tag(events[i].wall_ts_us, events[i].agent, events[i].event_hash),
        ),
        after_events(Tagged::empty(), events, field, dag).set.has(value),
    decreases events.len(),
{
    let none = Tagged::<Seq<char>>::empty();
    let front = events.drop_last();
    let tag = event_tag(events[i].wall_ts_us, events[i].agent, events[i].event_hash);
    assert forall|j: int| 0 <= j < events.len() && j != i implies event_tag(
        (#[trigger] events[j]).wall_ts_us,
        events[j].agent,
        events[j].event_hash,
    ) != tag by {
        times_tell_tags_apart(
            events[j].wall_ts_us,
            events[i].wall_ts_us,
            (events[j].agent, events[i].agent),
            (events[j].event_hash, events[i].event_hash),
        );
    }
    let after = after_events(none, events, field, dag).set;
    if i == events.len() - 1 {
        assert forall|j: int| 0 <= j < front.len() implies event_tag(
            (#[trigger] front[j]).wall_ts_us,
            front[j].agent,
            front[j].event_hash,
        ) != tag by {
            assert(front[j] == events[j]);
        }
        lemma_tags_come_from_events(none, front, field, dag, value, tag);
    } else {
        assert forall|j: int|
            #![trigger front[j]]
            0 <= j < front.len() && j != i implies front[j].wall_ts_us != front[i].wall_ts_us by {
            assert(front[j] == events[j]);
        }
        assert forall|j: int| i < j < front.len() implies spares(
            #[trigger] front[j],
            field,
            dag,
            value,
            front[i].event_hash,
        ) by {
            assert(front[j] == events[j]);
        }
        assert forall|j: int| i < j < front.len() implies event_tag(
            (#[trigger] front[j]).wall_ts_us,
            front[j].agent,
            front[j].event_hash,
        ) != event_tag(front[i].wall_ts_us, front[i].agent, front[i].event_hash) by {
            assert(front[j] == events[j]);
        }
        lemma_tag_stays(front, field, dag, value, i);
        lemma_made_by_its_event(none, front, field, dag, i);
        let last = events[events.len() - 1];
        let before = after_events(none, front, field, dag);
        assert(spares(last, field, dag, value, events[i].event_hash));
        assert(events.last() == last);
        if let Some(Change::Remove(v)) = change_of(last, field) {
            if v == value {
                assert(!seen_tags(before, value, last.event_hash, dag).contains(tag));
            }
        }
    }
    assert(after.live(value, tag));
}

/// A remove takes out what it has seen: with a graph, every tag of the value whose
/// event comes before it, and every tag that the set started from.
pub proof fn remove_takes_out_what_it_has_seen(
    replay: Replay,
    e: EventView,
    field: OrSetField,
    g: Graph,
    value: Seq<char>,
    tag: Timestamp,
)
    requires
        change_of(e, field) == Some(Change::Remove(value)),
        replay.made_by.contains_key(tag) ==> precedes(g, replay.made_by[tag], e.event_hash),
    ensures
        !after_event(replay, e, field, Some(g)).set.live(value, tag),
        forall|other: Seq<char>, t: Timestamp|
            other != value ==> #[trigger] after_event(replay, e, field, Some(g)).set.live(other, t)
                == replay.set.live(other, t),
{
    let seen = seen_tags(replay, value, e.event_hash, Some(g));
    if replay.set.live(value, tag) {
        assert(seen.contains(tag));
    }
}

}
