//! What the statements that project an event do.

use crate::db::project::{
    changes, recorded, tally, texts_among, ProjectResult, DELETE_ASSIGNEE, DELETE_LABELS,
    DELETE_LINK, DELETE_LINKS, INSERT_ASSIGNEE, INSERT_COMMENT, INSERT_ITEM, INSERT_LABEL,
    INSERT_LINK, INSERT_PLACEHOLDER, INSERT_REDACTION, RECORD_EVENT, REDACT_COMMENT, SET_DELETED,
    SET_DESCRIPTION, SET_KIND, SET_PARENT, SET_SEARCH_LABELS, SET_SIZE, SET_SNAPSHOT, SET_STATE,
    SET_SUMMARY, SET_TITLE, SET_URGENCY, TOUCH,
};
use crate::db::statement::{Bound, Command};
use crate::event::canonical::canonical_text;
use crate::event::data::AssignAction;
use crate::event::json::JsonTree;
use crate::event::types::EventType;
use crate::event::EventView;
use crate::text::slice::join;
use vstd::prelude::*;

verus! {

/// The statements that an event needs when its item has a row: of the ones for an
/// item without a row those behind the first, where that makes a placeholder.
spec fn own_steps(e: EventView) -> Seq<Command> {
    changes(e, true)->0
}

/// A statement that sets a column of the item of an event to a value, and the time
/// of its last update to that of the event.
pub open spec fn sets(c: Command, sql: Seq<char>, e: EventView, value: Bound) -> bool {
    &&& c.sql == sql
    &&& c.params.len() == 3
    &&& c.params[0] == value
    &&& c.params[1] == Bound::Int(e.wall_ts_us)
    &&& c.params[2] == Bound::Text(e.item_id)
}

/// A statement that sets the time of the last update of the item of an event.
pub open spec fn touches(c: Command, e: EventView) -> bool {
    &&& c.sql == TOUCH@
    &&& c.params.len() == 2
    &&& c.params[0] == Bound::Int(e.wall_ts_us)
    &&& c.params[1] == Bound::Text(e.item_id)
}

/// An update of a column is one statement for that column. Its parameter is the text
/// of the update; where the value is no text, the title is empty, the kind and the
/// urgency are those of a new item, and the others are unset.
pub proof fn update_sets_its_column(e: EventView)
    requires
        e.event_type == EventType::Update,
        e.data is Update,
    ensures
        changes(e, true) is Some,
        ({
            let field = e.data->Update_0.field;
            let value = e.data->Update_0.value;
            let steps = changes(e, true)->0;
            let given = if value is Text {
                Bound::Text(value->Text_0)
            } else {
                Bound::Null
            };
            &&& field == "title"@ || field == "description"@ || field == "kind"@ || field == "size"@
                || field == "urgency"@ || field == "parent"@ ==> steps.len() == 1
            &&& field == "title"@ && value is Text ==> sets(steps[0], SET_TITLE@, e, given)
            &&& field == "title"@ && !(value is Text) ==> sets(
                steps[0],
                SET_TITLE@,
                e,
                Bound::Text(""@),
            )
            &&& field == "description"@ ==> sets(steps[0], SET_DESCRIPTION@, e, given)
            &&& field == "kind"@ && value is Text ==> sets(steps[0], SET_KIND@, e, given)
            &&& field == "kind"@ && !(value is Text) ==> sets(
                steps[0],
                SET_KIND@,
                e,
                Bound::Text("task"@),
            )
            &&& field == "size"@ ==> sets(steps[0], SET_SIZE@, e, given)
            &&& field == "urgency"@ && value is Text ==> sets(steps[0], SET_URGENCY@, e, given)
            &&& field == "urgency"@ && !(value is Text) ==> sets(
                steps[0],
                SET_URGENCY@,
                e,
                Bound::Text("default"@),
            )
            &&& field == "parent"@ ==> sets(steps[0], SET_PARENT@, e, given)
        }),
{
    lemma_columns();
    assert(Seq::<Command>::empty() + own_steps(e) =~= own_steps(e));
}

proof fn lemma_columns()
    ensures
        "title"@.len() == 5,
        "description"@.len() == 11,
        "kind"@.len() == 4,
        "kind"@[0] == 'k',
        "size"@.len() == 4,
        "size"@[0] == 's',
        "urgency"@.len() == 7,
        "parent"@.len() == 6,
        "parent"@[0] == 'p',
        "labels"@.len() == 6,
        "labels"@[0] == 'l',
{
    reveal_strlit("title");
    reveal_strlit("description");
    reveal_strlit("kind");
    reveal_strlit("size");
    reveal_strlit("urgency");
    reveal_strlit("parent");
    reveal_strlit("labels");
}

/// Two updates of one field with different texts have different statements.
pub proof fn different_updates_differ(e: EventView, f: EventView, s: Seq<char>, t: Seq<char>)
    requires
        e.event_type == EventType::Update,
        f.event_type == EventType::Update,
        e.data is Update,
        f.data is Update,
        e.data->Update_0.field == f.data->Update_0.field,
        e.data->Update_0.value == JsonTree::Text(s),
        f.data->Update_0.value == JsonTree::Text(t),
        s != t,
        ({
            let field = e.data->Update_0.field;
            field == "title"@ || field == "description"@ || field == "kind"@ || field == "size"@
                || field == "urgency"@ || field == "parent"@
        }),
    ensures
        changes(e, true)->0 != changes(f, true)->0,
{
    update_sets_its_column(e);
    update_sets_its_column(f);
    assert(changes(e, true)->0[0].params[0] != changes(f, true)->0[0].params[0]);
}

/// An update of the labels replaces them: the old ones go, each text of the array is
/// inserted, in order, and the texts are joined by blanks for the search. A value
/// that is no array changes nothing.
pub proof fn update_replaces_the_labels(e: EventView, labels: Seq<Seq<char>>)
    requires
        e.event_type == EventType::Update,
        e.data is Update,
        e.data->Update_0.field == "labels"@,
    ensures
        changes(e, true) is Some,
        !(e.data->Update_0.value is Array) ==> changes(e, true)->0.len() == 0,
        e.data->Update_0.value == JsonTree::Array(
            labels.map_values(|s: Seq<char>| JsonTree::Text(s)),
        ) ==> {
            let steps = changes(e, true)->0;
            &&& steps.len() == labels.len() + 2
            &&& steps[0].sql == DELETE_LABELS@
            &&& steps[0].params == seq![Bound::Text(e.item_id)]
            &&& forall|i: int|
                0 <= i < labels.len() ==> inserts_label(#[trigger] steps[i + 1], e, labels[i])
            &&& sets(steps.last(), SET_SEARCH_LABELS@, e, Bound::Text(join(labels, " "@)))
        },
{
    lemma_columns();
    assert(Seq::<Command>::empty() + own_steps(e) =~= own_steps(e));
    let texts = labels.map_values(|s: Seq<char>| JsonTree::Text(s));
    lemma_texts_are_themselves(labels);
    if e.data->Update_0.value == JsonTree::Array(texts) {
        let steps = changes(e, true)->0;
        assert forall|i: int| 0 <= i < labels.len() implies inserts_label(
            #[trigger] steps[i + 1],
            e,
            labels[i],
        ) by {}
    }
}

/// A statement that gives the item of an event a label.
pub open spec fn inserts_label(c: Command, e: EventView, label: Seq<char>) -> bool {
    &&& c.sql == INSERT_LABEL@
    &&& c.params == seq![Bound::Text(e.item_id), Bound::Text(label), Bound::Int(e.wall_ts_us)]
}

proof fn lemma_texts_are_themselves(labels: Seq<Seq<char>>)
    ensures
        crate::db::project::texts_among(labels.map_values(|s: Seq<char>| JsonTree::Text(s)))
            == labels,
    decreases labels.len(),
{
    let texts = labels.map_values(|s: Seq<char>| JsonTree::Text(s));
    if labels.len() > 0 {
        let front = labels.drop_last();
        lemma_texts_are_themselves(front);
        assert(texts.drop_last() =~= front.map_values(|s: Seq<char>| JsonTree::Text(s)));
        assert(front.push(labels.last()) =~= labels);
    } else {
        assert(labels =~= Seq::empty());
    }
}

/// An update of a field that is not known moves the time of the last update and
/// nothing else.
pub proof fn unknown_update_touches_the_item(e: EventView)
    requires
        e.event_type == EventType::Update,
        e.data is Update,
        ({
            let field = e.data->Update_0.field;
            field != "title"@ && field != "description"@ && field != "kind"@ && field != "size"@
                && field != "urgency"@ && field != "parent"@ && field != "labels"@
        }),
    ensures
        changes(e, true) is Some,
        changes(e, true)->0.len() == 1,
        touches(changes(e, true)->0[0], e),
{
    assert(Seq::<Command>::empty() + own_steps(e) =~= own_steps(e));
}

/// The row of a created item holds what the payload says, column by column, and each
/// of its labels gets a row of its own, in order.
pub proof fn create_inserts_the_item(e: EventView, exists: bool)
    requires
        e.event_type == EventType::Create,
        e.data is Create,
    ensures
        changes(e, exists) is Some,
        ({
            let d = e.data->Create_0;
            let steps = changes(e, exists)->0;
            let row = steps[0].params;
            &&& steps.len() == d.labels.len() + 1
            &&& steps[0].sql == INSERT_ITEM@
            &&& row.len() == 10
            &&& row[0] == Bound::Text(e.item_id)
            &&& row[1] == Bound::Text(d.title)
            &&& row[2] == if d.description is Some {
                Bound::Text(d.description->0)
            } else {
                Bound::Null
            }
            &&& row[3] == Bound::Text(d.kind.name())
            &&& row[4] == Bound::Text(d.urgency.name())
            &&& row[5] == if d.size is Some {
                Bound::Text((d.size->0).name())
            } else {
                Bound::Null
            }
            &&& row[6] == if d.parent is Some {
                Bound::Text(d.parent->0)
            } else {
                Bound::Null
            }
            &&& row[7] == Bound::Text(join(d.labels, " "@))
            &&& row[8] == Bound::Int(e.wall_ts_us)
            &&& row[9] == Bound::Int(e.wall_ts_us)
            &&& forall|i: int|
                0 <= i < d.labels.len() ==> inserts_label(#[trigger] steps[i + 1], e, d.labels[i])
        }),
{
    let steps = changes(e, exists)->0;
    let d = e.data->Create_0;
    assert forall|i: int| 0 <= i < d.labels.len() implies inserts_label(
        #[trigger] steps[i + 1],
        e,
        d.labels[i],
    ) by {}
}

/// A move sets the state, a compaction the summary and a snapshot the text of its
/// state, each in one statement.
pub proof fn columns_of_their_own_are_set(e: EventView)
    ensures
        e.event_type == EventType::Move && e.data is Move ==> changes(e, true) is Some && changes(
            e,
            true,
        )->0.len() == 1 && sets(
            changes(e, true)->0[0],
            SET_STATE@,
            e,
            Bound::Text(e.data->Move_0.state.name()),
        ),
        e.event_type == EventType::Compact && e.data is Compact ==> changes(e, true) is Some
            && changes(e, true)->0.len() == 1 && sets(
            changes(e, true)->0[0],
            SET_SUMMARY@,
            e,
            Bound::Text(e.data->Compact_0.summary),
        ),
        e.event_type == EventType::Snapshot && e.data is Snapshot ==> changes(e, true) is Some
            && changes(e, true)->0.len() == 1 && sets(
            changes(e, true)->0[0],
            SET_SNAPSHOT@,
            e,
            Bound::Text(canonical_text(e.data->Snapshot_0.state)),
        ),
{
    assert(Seq::<Command>::empty() + own_steps(e) =~= own_steps(e));
}

/// An assignment inserts or deletes the row of its agent, and moves the time of the
/// last update.
pub proof fn assignment_changes_its_row(e: EventView)
    requires
        e.event_type == EventType::Assign,
        e.data is Assign,
    ensures
        changes(e, true) is Some,
        ({
            let d = e.data->Assign_0;
            let steps = changes(e, true)->0;
            &&& steps.len() == 2
            &&& d.action == AssignAction::Assign ==> steps[0].sql == INSERT_ASSIGNEE@
                && steps[0].params == seq![
                Bound::Text(e.item_id),
                Bound::Text(d.agent),
                Bound::Int(e.wall_ts_us),
            ]
            &&& d.action == AssignAction::Unassign ==> steps[0].sql == DELETE_ASSIGNEE@
                && steps[0].params == seq![Bound::Text(e.item_id), Bound::Text(d.agent)]
            &&& touches(steps[1], e)
        }),
{
    assert(Seq::<Command>::empty() + own_steps(e) =~= own_steps(e));
}

/// A comment gets a row with its hash, its author, its body and its time.
pub proof fn comment_gets_a_row(e: EventView)
    requires
        e.event_type == EventType::Comment,
        e.data is Comment,
    ensures
        changes(e, true) is Some,
        ({
            let steps = changes(e, true)->0;
            let row = steps[0].params;
            &&& steps.len() == 2
            &&& steps[0].sql == INSERT_COMMENT@
            &&& row.len() == 5
            &&& row[0] == Bound::Text(e.item_id)
            &&& row[1] == Bound::Text(e.event_hash)
            &&& row[2] == Bound::Text(e.agent)
            &&& row[3] == Bound::Text(e.data->Comment_0.body)
            &&& row[4] == Bound::Int(e.wall_ts_us)
            &&& touches(steps[1], e)
        }),
{
    assert(Seq::<Command>::empty() + own_steps(e) =~= own_steps(e));
}

/// A link gets a row with its target and its kind; an unlink deletes the row of that
/// kind, or all rows to the target without a kind.
pub proof fn links_change_their_rows(e: EventView)
    ensures
        e.event_type == EventType::Link && e.data is Link ==> changes(e, true) is Some && ({
            let d = e.data->Link_0;
            let steps = changes(e, true)->0;
            &&& steps.len() == 2
            &&& steps[0].sql == INSERT_LINK@
            &&& steps[0].params == seq![
                Bound::Text(e.item_id),
                Bound::Text(d.target),
                Bound::Text(d.link_type),
                Bound::Int(e.wall_ts_us),
            ]
            &&& touches(steps[1], e)
        }),
        e.event_type == EventType::Unlink && e.data is Unlink ==> changes(e, true) is Some && ({
            let d = e.data->Unlink_0;
            let steps = changes(e, true)->0;
            &&& steps.len() == 2
            &&& d.link_type is Some ==> steps[0].sql == DELETE_LINK@ && steps[0].params == seq![
                Bound::Text(e.item_id),
                Bound::Text(d.target),
                Bound::Text(d.link_type->0),
            ]
            &&& d.link_type is None ==> steps[0].sql == DELETE_LINKS@ && steps[0].params == seq![
                Bound::Text(e.item_id),
                Bound::Text(d.target),
            ]
            &&& touches(steps[1], e)
        }),
{
    assert(Seq::<Command>::empty() + own_steps(e) =~= own_steps(e));
}

/// A deletion marks the row of its item, whatever its payload.
pub proof fn delete_marks_the_row(e: EventView)
    requires
        e.event_type == EventType::Delete,
    ensures
        changes(e, true) is Some,
        changes(e, true)->0.len() == 1,
        changes(e, true)->0[0].sql == SET_DELETED@,
        changes(e, true)->0[0].params == seq![Bound::Int(e.wall_ts_us), Bound::Text(e.item_id)],
{
    assert(Seq::<Command>::empty() + own_steps(e) =~= own_steps(e));
}

/// A redaction is put on record with its target, its reason, its agent and its time,
/// and hides the comment of the target. It asks for no row of the item.
pub proof fn redaction_hides_its_target(e: EventView, exists: bool)
    requires
        e.event_type == EventType::Redact,
        e.data is Redact,
    ensures
        changes(e, exists) is Some,
        ({
            let d = e.data->Redact_0;
            let steps = changes(e, exists)->0;
            let row = steps[0].params;
            &&& steps.len() == 2
            &&& steps[0].sql == INSERT_REDACTION@
            &&& row.len() == 5
            &&& row[0] == Bound::Text(d.target_hash)
            &&& row[1] == Bound::Text(e.item_id)
            &&& row[2] == Bound::Text(d.reason)
            &&& row[3] == Bound::Text(e.agent)
            &&& row[4] == Bound::Int(e.wall_ts_us)
            &&& steps[1].sql == REDACT_COMMENT@
            &&& steps[1].params == seq![Bound::Text(d.target_hash)]
        }),
{
}

/// An event about an item without a row makes one first, with the item and the time
/// of the event, and then does what it does to an item with a row. A created item
/// needs none, nor does a redaction.
pub proof fn missing_row_is_made_first(e: EventView)
    requires
        changes(e, true) is Some,
    ensures
        changes(e, false) is Some,
        ({
            let with_row = changes(e, true)->0;
            let without = changes(e, false)->0;
            if e.event_type == EventType::Create || e.event_type == EventType::Redact {
                without == with_row
            } else {
                &&& without.len() == with_row.len() + 1
                &&& without[0].sql == INSERT_PLACEHOLDER@
                &&& without[0].params == seq![Bound::Text(e.item_id), Bound::Int(e.wall_ts_us)]
                &&& without.skip(1) == with_row
            }
        }),
{
    let with_row = changes(e, true)->0;
    assert(Seq::<Command>::empty() + with_row =~= with_row);
    if e.event_type != EventType::Create && e.event_type != EventType::Redact {
        assert(changes(e, false)->0.skip(1) =~= with_row);
    }
}

/// An event is projected exactly if its payload is of its type or it deletes the
/// item.
pub proof fn events_with_their_payload_are_projected(e: EventView, exists: bool)
    ensures
        changes(e, exists) is Some <==> e.data.event_type() == e.event_type || e.event_type
            == EventType::Delete,
{
}

/// The record of an event has its hash, its item, the name of its type and its time.
pub proof fn record_names_the_event(e: EventView)
    ensures
        recorded(e).sql == RECORD_EVENT@,
        recorded(e).params.len() == 4,
        recorded(e).params[0] == Bound::Text(e.event_hash),
        recorded(e).params[1] == Bound::Text(e.item_id),
        recorded(e).params[2] == Bound::Text(e.event_type.name()),
        recorded(e).params[3] == Bound::Int(e.wall_ts_us),
{
}

/// The count of a result goes up by one with each such result and by nothing else,
/// and the counts of all results make up the whole.
pub proof fn results_are_tallied(results: Seq<ProjectResult>, more: ProjectResult)
    ensures
        forall|r: ProjectResult| #[trigger]
            tally(results.push(more), r) == tally(results, r) + if r == more {
                1nat
            } else {
                0nat
            },
        tally(results, ProjectResult::Projected) + tally(results, ProjectResult::Duplicate) + tally(
            results,
            ProjectResult::Failed,
        ) == results.len(),
    decreases results.len(),
{
    assert(results.push(more).drop_last() =~= results);
    if results.len() > 0 {
        results_are_tallied(results.drop_last(), results.last());
        assert(results.drop_last().push(results.last()) =~= results);
    }
}

/// The text of a statement that sets a column.
pub open spec fn setter(column: Seq<char>) -> Seq<char> {
    "UPDATE items SET "@ + column + " = ?1, updated_at_us = ?2 WHERE item_id = ?3"@
}

/// The statements that set a column name it, and differ in that alone.
pub proof fn setters_name_their_columns()
    ensures
        SET_TITLE@ == setter("title"@),
        SET_DESCRIPTION@ == setter("description"@),
        SET_KIND@ == setter("kind"@),
        SET_SIZE@ == setter("size"@),
        SET_URGENCY@ == setter("urgency"@),
        SET_PARENT@ == setter("parent_id"@),
        SET_SEARCH_LABELS@ == setter("search_labels"@),
        SET_STATE@ == setter("state"@),
        SET_SUMMARY@ == setter("compact_summary"@),
        SET_SNAPSHOT@ == setter("snapshot_json"@),
{
    reveal_strlit("UPDATE items SET ");
    reveal_strlit(" = ?1, updated_at_us = ?2 WHERE item_id = ?3");
    reveal_strlit("title");
    reveal_strlit("UPDATE items SET title = ?1, updated_at_us = ?2 WHERE item_id = ?3");
    assert(SET_TITLE@ =~= setter("title"@));
    reveal_strlit("description");
    reveal_strlit("UPDATE items SET description = ?1, updated_at_us = ?2 WHERE item_id = ?3");
    assert(SET_DESCRIPTION@ =~= setter("description"@));
    reveal_strlit("kind");
    reveal_strlit("UPDATE items SET kind = ?1, updated_at_us = ?2 WHERE item_id = ?3");
    assert(SET_KIND@ =~= setter("kind"@));
    reveal_strlit("size");
    reveal_strlit("UPDATE items SET size = ?1, updated_at_us = ?2 WHERE item_id = ?3");
    assert(SET_SIZE@ =~= setter("size"@));
    reveal_strlit("urgency");
    reveal_strlit("UPDATE items SET urgency = ?1, updated_at_us = ?2 WHERE item_id = ?3");
    assert(SET_URGENCY@ =~= setter("urgency"@));
    reveal_strlit("parent_id");
    reveal_strlit("UPDATE items SET parent_id = ?1, updated_at_us = ?2 WHERE item_id = ?3");
    assert(SET_PARENT@ =~= setter("parent_id"@));
    reveal_strlit("search_labels");
    reveal_strlit("UPDATE items SET search_labels = ?1, updated_at_us = ?2 WHERE item_id = ?3");
    assert(SET_SEARCH_LABELS@ =~= setter("search_labels"@));
    reveal_strlit("state");
    reveal_strlit("UPDATE items SET state = ?1, updated_at_us = ?2 WHERE item_id = ?3");
    assert(SET_STATE@ =~= setter("state"@));
    reveal_strlit("compact_summary");
    reveal_strlit("UPDATE items SET compact_summary = ?1, updated_at_us = ?2 WHERE item_id = ?3");
    assert(SET_SUMMARY@ =~= setter("compact_summary"@));
    reveal_strlit("snapshot_json");
    reveal_strlit("UPDATE items SET snapshot_json = ?1, updated_at_us = ?2 WHERE item_id = ?3");
    assert(SET_SNAPSHOT@ =~= setter("snapshot_json"@));
}

/// The labels among the values of an array are its texts, in their order.
pub proof fn labels_are_the_texts_among_the_values(items: Seq<JsonTree>, more: JsonTree)
    ensures
        more matches JsonTree::Text(s) ==> texts_among(items.push(more)) == texts_among(items).push(
            s,
        ),
        !(more is Text) ==> texts_among(items.push(more)) == texts_among(items),
        texts_among(Seq::empty()) == Seq::<Seq<char>>::empty(),
{
    assert(items.push(more).drop_last() =~= items);
    assert(items.push(more).last() == more);
}

}
