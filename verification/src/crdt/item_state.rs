//! The state of a work item.
//!
//! Every field is a replicated value of its own: last-writer-wins registers for
//! the scalar fields and the deletion mark, observed-remove sets for assignees,
//! labels and links, a grow-only set for comments, and epoch and phase for the
//! lifecycle. A merge merges each field.

use crate::clock::itc::{Event as Counts, Id, Stamp};
use crate::clock::wall::WallTime;
use crate::crdt::elements::Elements;
use crate::crdt::gset::GSet;
use crate::crdt::lww::{outranks_is_total_preorder, LwwRegister, Write};
use crate::crdt::merge::Merge;
use crate::crdt::orset::{orset_merge_is_a_semilattice, Tagged};
use crate::crdt::state::{state_merge_is_a_semilattice, EpochPhaseState, Phase};
use crate::crdt::tags::{
    as_unsigned, bit_stamp, bit_stamps_are_concurrent_or_same, bit_stamps_come_after_the_seed,
    derive_stamp_from_hash, item_tag, make_orset_tag, moment_or_any, text_hash, unsigned,
    wall_time_of,
};
use crate::crdt::OrSet;
use crate::event::data::{
    AssignAction, AssignData, CreateData, CreateView, EventData, LinkData, Payload, UnlinkData,
    UpdateData, UpdateView,
};
use crate::event::json::JsonTree;
use crate::event::types::EventType;
use crate::event::{Event, EventView};
use crate::model::item::{Kind, Size, State, Urgency};
use crate::text::order::{lex_lt_asymmetric, lex_lt_total, parts_below};
use crate::text::slice::{str_eq, string_views};
use vstd::prelude::*;

verus! {

/// The full state of a work item.
#[derive(Debug)]
pub struct WorkItemState {
    /// Item title.
    pub title: LwwRegister<String>,
    /// Item description, empty if there is none.
    pub description: LwwRegister<String>,
    /// Kind of work item.
    pub kind: LwwRegister<Kind>,
    /// Lifecycle state.
    pub state: EpochPhaseState,
    /// T-shirt size estimate.
    pub size: LwwRegister<Option<Size>>,
    /// Priority override.
    pub urgency: LwwRegister<Urgency>,
    /// Parent item, empty if there is none.
    pub parent: LwwRegister<String>,
    /// Assigned agents.
    pub assignees: OrSet<String>,
    /// Labels.
    pub labels: OrSet<String>,
    /// Items that block this one.
    pub blocked_by: OrSet<String>,
    /// Related items.
    pub related_to: OrSet<String>,
    /// Hashes of comment events.
    pub comments: GSet<String>,
    /// Deletion mark.
    pub deleted: LwwRegister<bool>,
    /// Wall-clock time of the earliest event.
    pub created_at: u64,
    /// Wall-clock time of the latest event.
    pub updated_at: u64,
}

/// What a last-writer-wins register holds.
pub ghost struct Reg<V> {
    pub value: V,
    pub write: Write,
}

impl<V> Reg<V> {
    /// The register that wins.
    pub open spec fn join(self, other: Reg<V>) -> Reg<V> {
        if self.write.wins(other.write) {
            self
        } else {
            other
        }
    }
}

/// What a register with a plain value holds.
pub open spec fn reg<T>(r: LwwRegister<T>) -> Reg<T> {
    Reg { value: r.value, write: r.write() }
}

/// What a register with a text holds.
pub open spec fn text_reg(r: LwwRegister<String>) -> Reg<Seq<char>> {
    Reg { value: r.value@, write: r.write() }
}

/// What the state of a work item holds.
#[verifier::ext_equal]
pub ghost struct ItemView {
    pub title: Reg<Seq<char>>,
    pub description: Reg<Seq<char>>,
    pub kind: Reg<Kind>,
    pub state: EpochPhaseState,
    pub size: Reg<Option<Size>>,
    pub urgency: Reg<Urgency>,
    pub parent: Reg<Seq<char>>,
    pub assignees: Tagged<Seq<char>>,
    pub labels: Tagged<Seq<char>>,
    pub blocked_by: Tagged<Seq<char>>,
    pub related_to: Tagged<Seq<char>>,
    pub comments: Set<Seq<char>>,
    pub deleted: Reg<bool>,
    pub created_at: u64,
    pub updated_at: u64,
}

impl View for WorkItemState {
    type V = ItemView;

    open spec fn view(&self) -> ItemView {
        ItemView {
            title: text_reg(self.title),
            description: text_reg(self.description),
            kind: reg(self.kind),
            state: self.state,
            size: reg(self.size),
            urgency: reg(self.urgency),
            parent: text_reg(self.parent),
            assignees: self.assignees@,
            labels: self.labels@,
            blocked_by: self.blocked_by@,
            related_to: self.related_to@,
            comments: self.comments@,
            deleted: reg(self.deleted),
            created_at: self.created_at,
            updated_at: self.updated_at,
        }
    }
}

/// The write of a register that nothing has written yet.
pub open spec fn unwritten() -> Write {
    Write {
        stamp: Stamp { id: Id::One, event: Counts::Leaf(0) },
        wall_ts: 0,
        agent: Seq::empty(),
        hash: Seq::empty(),
    }
}

impl ItemView {
    /// The state of an item that nothing has happened to.
    pub open spec fn fresh() -> ItemView {
        ItemView {
            title: Reg { value: Seq::empty(), write: unwritten() },
            description: Reg { value: Seq::empty(), write: unwritten() },
            kind: Reg { value: Kind::Task, write: unwritten() },
            state: EpochPhaseState { epoch: 0, phase: Phase::Open },
            size: Reg { value: None, write: unwritten() },
            urgency: Reg { value: Urgency::Default, write: unwritten() },
            parent: Reg { value: Seq::empty(), write: unwritten() },
            assignees: Tagged::empty(),
            labels: Tagged::empty(),
            blocked_by: Tagged::empty(),
            related_to: Tagged::empty(),
            comments: Set::empty(),
            deleted: Reg { value: false, write: unwritten() },
            created_at: 0,
            updated_at: 0,
        }
    }

    /// Whether all stamps can be compared.
    pub open spec fn wf(self) -> bool {
        &&& self.title.write.stamp.wf()
        &&& self.description.write.stamp.wf()
        &&& self.kind.write.stamp.wf()
        &&& self.size.write.stamp.wf()
        &&& self.urgency.write.stamp.wf()
        &&& self.parent.write.stamp.wf()
        &&& self.deleted.write.stamp.wf()
    }

    /// The two states merged, field by field. The earliest creation other than
    /// none and the latest update count.
    pub open spec fn join(self, other: ItemView) -> ItemView {
        ItemView {
            title: self.title.join(other.title),
            description: self.description.join(other.description),
            kind: self.kind.join(other.kind),
            state: self.state.join(other.state),
            size: self.size.join(other.size),
            urgency: self.urgency.join(other.urgency),
            parent: self.parent.join(other.parent),
            assignees: self.assignees.union(other.assignees),
            labels: self.labels.union(other.labels),
            blocked_by: self.blocked_by.union(other.blocked_by),
            related_to: self.related_to.union(other.related_to),
            comments: self.comments.union(other.comments),
            deleted: self.deleted.join(other.deleted),
            created_at: earliest(self.created_at, other.created_at),
            updated_at: if other.updated_at > self.updated_at {
                other.updated_at
            } else {
                self.updated_at
            },
        }
    }
}

/// The earlier of two times, where zero stands for none.
pub open spec fn earliest(a: u64, b: u64) -> u64 {
    if b != 0 && (a == 0 || b < a) {
        b
    } else {
        a
    }
}

/// What an event writes to a register.
pub open spec fn write_of(e: EventView) -> Write {
    Write {
        stamp: bit_stamp(text_hash(e.event_hash)),
        wall_ts: unsigned(e.wall_ts_us),
        agent: e.agent,
        hash: e.event_hash,
    }
}

/// A register after an event has written it.
pub open spec fn written<V>(e: EventView, value: V) -> Reg<V> {
    Reg { value, write: write_of(e) }
}

/// The tag of a value that an event adds.
pub open spec fn tag_of(e: EventView, wall: WallTime, value: Seq<char>) -> crate::crdt::Timestamp {
    item_tag(unsigned(e.wall_ts_us), wall, e.agent, e.event_hash, value)
}

/// A set after an event has added values to it.
pub open spec fn with_all(
    set: Tagged<Seq<char>>,
    e: EventView,
    wall: WallTime,
    values: Seq<Seq<char>>,
) -> Tagged<Seq<char>>
    decreases values.len(),
{
    if values.len() == 0 {
        set
    } else {
        with_all(set, e, wall, values.drop_last()).added(
            values.last(),
            tag_of(e, wall, values.last()),
        )
    }
}

/// A set after every tag of a value has been removed.
pub open spec fn without(set: Tagged<Seq<char>>, value: Seq<char>) -> Tagged<Seq<char>> {
    set.removed(value, set.tags(value))
}

/// The phase of a lifecycle state.
pub open spec fn phase_of(state: State) -> Phase {
    match state {
        State::Open => Phase::Open,
        State::Doing => Phase::Doing,
        State::Done => Phase::Done,
        State::Archived => Phase::Archived,
    }
}

/// The state after a move to a phase. A move forward stays in the epoch; a move
/// back starts the next one.
pub open spec fn moved(state: EpochPhaseState, target: Phase) -> EpochPhaseState {
    if target.level() < state.phase.level() {
        EpochPhaseState { epoch: (state.epoch + 1) as u64, phase: target }
    } else {
        EpochPhaseState { phase: target, ..state }
    }
}

/// The text of a JSON value, if it is one.
pub open spec fn text_in(t: JsonTree) -> Option<Seq<char>> {
    match t {
        JsonTree::Text(s) => Some(s),
        _ => None,
    }
}

/// The text of a JSON value, empty if it is none.
pub open spec fn text_or_empty(t: JsonTree) -> Seq<char> {
    match t {
        JsonTree::Text(s) => s,
        _ => Seq::empty(),
    }
}

/// The text under a key, empty if there is none.
pub open spec fn member_text(m: Map<Seq<char>, JsonTree>, key: Seq<char>) -> Seq<char> {
    if m.contains_key(key) {
        text_or_empty(m[key])
    } else {
        Seq::empty()
    }
}

/// The state after an item was created.
pub open spec fn created(s: ItemView, e: EventView, d: CreateView, wall: WallTime) -> ItemView {
    ItemView {
        title: written(e, d.title),
        kind: written(e, d.kind),
        size: if d.size is Some {
            written(e, d.size)
        } else {
            s.size
        },
        urgency: written(e, d.urgency),
        description: match d.description {
            Some(text) => written(e, text),
            None => s.description,
        },
        parent: match d.parent {
            Some(parent) => written(e, parent),
            None => s.parent,
        },
        labels: with_all(s.labels, e, wall, d.labels),
        ..s
    }
}

/// The labels after an update.
pub open spec fn relabelled(
    labels: Tagged<Seq<char>>,
    e: EventView,
    value: JsonTree,
    wall: WallTime,
) -> Tagged<Seq<char>> {
    match value {
        JsonTree::Object(m) => {
            let action = member_text(m, "action"@);
            let label = member_text(m, "label"@);
            if label.len() == 0 {
                labels
            } else if action == "add"@ {
                labels.added(label, tag_of(e, wall, label))
            } else if action == "remove"@ {
                without(labels, label)
            } else {
                labels
            }
        },
        _ => labels,
    }
}

/// The state after a field was updated. A value that does not fit the field
/// changes nothing, but clears description, size and parent.
pub open spec fn updated(s: ItemView, e: EventView, d: UpdateView, wall: WallTime) -> ItemView {
    let text = text_in(d.value);
    if d.field == "title"@ {
        match text {
            Some(title) => ItemView { title: written(e, title), ..s },
            None => s,
        }
    } else if d.field == "description"@ {
        ItemView { description: written(e, text_or_empty(d.value)), ..s }
    } else if d.field == "kind"@ {
        match text {
            Some(name) => match Kind::named(name) {
                Some(kind) => ItemView { kind: written(e, kind), ..s },
                None => s,
            },
            None => s,
        }
    } else if d.field == "size"@ {
        let size = match text {
            Some(name) => Size::named(name),
            None => None,
        };
        ItemView { size: written(e, size), ..s }
    } else if d.field == "urgency"@ {
        match text {
            Some(name) => match Urgency::named(name) {
                Some(urgency) => ItemView { urgency: written(e, urgency), ..s },
                None => s,
            },
            None => s,
        }
    } else if d.field == "parent"@ {
        ItemView { parent: written(e, text_or_empty(d.value)), ..s }
    } else if d.field == "labels"@ {
        ItemView { labels: relabelled(s.labels, e, d.value, wall), ..s }
    } else {
        s
    }
}

/// Whether a link says that an item blocks another.
pub open spec fn blocking(link_type: Seq<char>) -> bool {
    link_type == "blocks"@ || link_type == "blocked_by"@
}

/// Whether a link says that items are related.
pub open spec fn relating(link_type: Seq<char>) -> bool {
    link_type == "related_to"@ || link_type == "related"@
}

/// The state after an event, but for the times.
pub open spec fn changed(s: ItemView, e: EventView, wall: WallTime) -> ItemView {
    match (e.event_type, e.data) {
        (EventType::Create, Payload::Create(d)) => created(s, e, d, wall),
        (EventType::Update, Payload::Update(d)) => updated(s, e, d, wall),
        (EventType::Move, Payload::Move(d)) => ItemView {
            state: moved(s.state, phase_of(d.state)),
            ..s
        },
        (EventType::Assign, Payload::Assign(d)) => ItemView {
            assignees: match d.action {
                AssignAction::Assign => s.assignees.added(d.agent, tag_of(e, wall, d.agent)),
                AssignAction::Unassign => without(s.assignees, d.agent),
            },
            ..s
        },
        (EventType::Comment, Payload::Comment(_)) => ItemView {
            comments: s.comments.insert(e.event_hash),
            ..s
        },
        (EventType::Link, Payload::Link(d)) => if blocking(d.link_type) {
            ItemView { blocked_by: s.blocked_by.added(d.target, tag_of(e, wall, d.target)), ..s }
        } else if relating(d.link_type) {
            ItemView { related_to: s.related_to.added(d.target, tag_of(e, wall, d.target)), ..s }
        } else {
            s
        },
        (EventType::Unlink, Payload::Unlink(d)) => ItemView {
            blocked_by: if d.link_type is None || blocking(d.link_type->0) {
                without(s.blocked_by, d.target)
            } else {
                s.blocked_by
            },
            related_to: if d.link_type is None || relating(d.link_type->0) {
                without(s.related_to, d.target)
            } else {
                s.related_to
            },
            ..s
        },
        (EventType::Delete, _) => ItemView { deleted: written(e, true), ..s },
        (EventType::Compact, Payload::Compact(d)) => ItemView {
            description: written(e, d.summary),
            ..s
        },
        _ => s,
    }
}

/// The state after an event. `wall` is the moment in the tags of added values.
pub open spec fn applied(s: ItemView, e: EventView, wall: WallTime) -> ItemView {
    let at = unsigned(e.wall_ts_us);
    ItemView {
        created_at: if s.created_at == 0 || at < s.created_at {
            at
        } else {
            s.created_at
        },
        updated_at: if at > s.updated_at {
            at
        } else {
            s.updated_at
        },
        ..changed(s, e, wall)
    }
}

/// Whether an event can be counted: a move back needs a next epoch.
pub open spec fn countable(s: ItemView, e: EventView) -> bool {
    match e.data {
        Payload::Move(d) => e.event_type == EventType::Move && phase_of(d.state).level()
            < s.state.phase.level() ==> s.state.epoch < u64::MAX,
        _ => true,
    }
}

/// Makes the register that nothing has written yet.
fn unwritten_register<T>(value: T) -> (r: LwwRegister<T>)
    ensures
        r.value == value,
        r.write() == unwritten(),
        r.wf(),
{
    let r = LwwRegister::new(value, Stamp::seed(), 0, String::new(), String::new());
    assert(r.write().agent =~= Seq::empty());
    assert(r.write().hash =~= Seq::empty());
    r
}

/// Makes the register that an event writes.
fn written_register<T>(event: &Event, stamp: &Stamp, value: T) -> (r: LwwRegister<T>)
    requires
        *stamp == bit_stamp(text_hash(event@.event_hash)),
    ensures
        r.value == value,
        r.write() == write_of(event@),
{
    LwwRegister::new(
        value,
        stamp.clone(),
        as_unsigned(event.wall_ts_us),
        event.agent.clone(),
        event.event_hash.clone(),
    )
}

/// The phase of a lifecycle state.
fn state_to_phase(state: State) -> (r: Phase)
    ensures
        r == phase_of(state),
{
    match state {
        State::Open => Phase::Open,
        State::Doing => Phase::Doing,
        State::Done => Phase::Done,
        State::Archived => Phase::Archived,
    }
}

/// Moves a state to a phase. A move back reopens the item first.
fn apply_phase_transition(state: &mut EpochPhaseState, target: Phase)
    requires
        target.level() < old(state).phase.level() ==> old(state).epoch < u64::MAX,
    ensures
        *final(state) == moved(*old(state), target),
{
    if target.rank() < state.phase.rank() {
        state.reopen();
    }
    if target.rank() > state.phase.rank() {
        let _ = state.advance(target);
    }
}

/// The text under a key, empty if there is none.
fn member_str(map: &crate::event::json::JsonMap, key: &str) -> (r: String)
    ensures
        r@ == member_text(map.meaning(), key@),
{
    match map.get(key) {
        Some(v) => match v.as_str() {
            Some(s) => s.to_owned(),
            None => {
                let s = String::new();
                assert(s@ =~= Seq::empty());
                s
            },
        },
        None => {
            let s = String::new();
            assert(s@ =~= Seq::empty());
            s
        },
    }
}

fn text_of(v: &crate::event::json::JsonValue) -> (r: String)
    ensures
        r@ == text_or_empty(v.tree()),
{
    match v.as_str() {
        Some(s) => s.to_owned(),
        None => {
            let s = String::new();
            assert(s@ =~= Seq::empty());
            s
        },
    }
}

fn is_blocking(link_type: &str) -> (r: bool)
    ensures
        r == blocking(link_type@),
{
    str_eq(link_type, "blocks") || str_eq(link_type, "blocked_by")
}

fn is_relating(link_type: &str) -> (r: bool)
    ensures
        r == relating(link_type@),
{
    str_eq(link_type, "related_to") || str_eq(link_type, "related")
}

/// Makes the tag of a value that an event adds.
fn make_tag(event: &Event, wall: WallTime, value: &str) -> (r: crate::crdt::Timestamp)
    ensures
        r == tag_of(event@, wall, value@),
{
    make_orset_tag(
        as_unsigned(event.wall_ts_us),
        wall,
        event.agent.as_str(),
        event.event_hash.as_str(),
        value,
    )
}

impl WorkItemState {
    /// Creates the state of an item that nothing has happened to.
    pub fn new() -> (r: Self)
        ensures
            r@ == ItemView::fresh(),
            r@.wf(),
    {
        let r = WorkItemState {
            title: unwritten_register(String::new()),
            description: unwritten_register(String::new()),
            kind: unwritten_register(Kind::Task),
            state: EpochPhaseState::new(),
            size: unwritten_register(None),
            urgency: unwritten_register(Urgency::Default),
            parent: unwritten_register(String::new()),
            assignees: OrSet::new(),
            labels: OrSet::new(),
            blocked_by: OrSet::new(),
            related_to: OrSet::new(),
            comments: GSet::new(),
            deleted: unwritten_register(false),
            created_at: 0,
            updated_at: 0,
        };
        proof {
            assert(r@.title.value =~= Seq::empty());
            assert(r@.description.value =~= Seq::empty());
            assert(r@.parent.value =~= Seq::empty());
        }
        r
    }

    /// Merges another state into this one, field by field.
    pub fn merge(&mut self, other: &WorkItemState)
        requires
            old(self)@.wf(),
            other@.wf(),
        ensures
            final(self)@ == old(self)@.join(other@),
            final(self)@.wf(),
    {
        self.title.merge(&other.title);
        self.description.merge(&other.description);
        self.kind.merge(&other.kind);
        self.state.merge(&other.state);
        self.size.merge(&other.size);
        self.urgency.merge(&other.urgency);
        self.parent.merge(&other.parent);
        self.assignees.merge(other.assignees.clone());
        self.labels.merge(other.labels.clone());
        self.blocked_by.merge(other.blocked_by.clone());
        self.related_to.merge(other.related_to.clone());
        GSet::merge(&mut self.comments, &other.comments);
        self.deleted.merge(&other.deleted);
        if other.created_at != 0 && (self.created_at == 0 || other.created_at < self.created_at) {
            self.created_at = other.created_at;
        }
        if other.updated_at > self.updated_at {
            self.updated_at = other.updated_at;
        }
    }

    fn apply_create(&mut self, event: &Event, data: &CreateData, stamp: &Stamp, wall: WallTime)
        requires
            *stamp == bit_stamp(text_hash(event@.event_hash)),
        ensures
            final(self)@ == created(old(self)@, event@, data@, wall),
    {
        self.title = written_register(event, stamp, data.title.clone());
        self.kind = written_register(event, stamp, data.kind);
        if let Some(size) = data.size {
            self.size = written_register(event, stamp, Some(size));
        }
        self.urgency = written_register(event, stamp, data.urgency);
        if let Some(desc) = &data.description {
            self.description = written_register(event, stamp, desc.clone());
        }
        if let Some(parent) = &data.parent {
            self.parent = written_register(event, stamp, parent.clone());
        }
        let ghost mid = self@;
        let ghost all = string_views(data.labels@);
        let mut i: usize = 0;
        assert(all.take(0) =~= Seq::empty());
        while i < data.labels.len()
            invariant
                i <= data.labels.len(),
                all == string_views(data.labels@),
                self@ == (ItemView {
                    labels: with_all(mid.labels, event@, wall, all.take(i as int)),
                    ..mid
                }),
            decreases data.labels.len() - i,
        {
            let label = &data.labels[i];
            proof {
                assert(all.take(i + 1).drop_last() =~= all.take(i as int));
                assert(all.take(i + 1).last() == label@);
            }
            let tag = make_tag(event, wall, label.as_str());
            self.labels.add(label.clone(), tag);
            i += 1;
        }
        assert(all.take(i as int) =~= all);
    }

    fn apply_labels(&mut self, event: &Event, data: &UpdateData, wall: WallTime)
        ensures
            final(self)@ == (ItemView {
                labels: relabelled(old(self)@.labels, event@, data@.value, wall),
                ..old(self)@
            }),
    {
        if let Some(obj) = data.value.as_object() {
            let action = member_str(obj, "action");
            let label = member_str(obj, "label");
            if !label.as_str().is_empty() {
                if str_eq(action.as_str(), "add") {
                    let tag = make_tag(event, wall, label.as_str());
                    self.labels.add(label, tag);
                } else if str_eq(action.as_str(), "remove") {
                    self.labels.remove(&label);
                }
            }
        }
    }

    fn apply_update(&mut self, event: &Event, data: &UpdateData, stamp: &Stamp, wall: WallTime)
        requires
            *stamp == bit_stamp(text_hash(event@.event_hash)),
        ensures
            final(self)@ == updated(old(self)@, event@, data@, wall),
    {
        let field = data.field.as_str();
        let text = data.value.as_str();
        if str_eq(field, "title") {
            if let Some(s) = text {
                self.title = written_register(event, stamp, s.to_owned());
            }
        } else if str_eq(field, "description") {
            self.description = written_register(event, stamp, text_of(&data.value));
        } else if str_eq(field, "kind") {
            if let Some(s) = text {
                if let Some(kind) = Kind::from_name(s) {
                    self.kind = written_register(event, stamp, kind);
                }
            }
        } else if str_eq(field, "size") {
            let size = match text {
                Some(s) => Size::from_name(s),
                None => None,
            };
            self.size = written_register(event, stamp, size);
        } else if str_eq(field, "urgency") {
            if let Some(s) = text {
                if let Some(urgency) = Urgency::from_name(s) {
                    self.urgency = written_register(event, stamp, urgency);
                }
            }
        } else if str_eq(field, "parent") {
            self.parent = written_register(event, stamp, text_of(&data.value));
        } else if str_eq(field, "labels") {
            self.apply_labels(event, data, wall);
        }
    }

    fn apply_assign(&mut self, event: &Event, data: &AssignData, wall: WallTime)
        ensures
            final(self)@ == (ItemView {
                assignees: match data.action {
                    AssignAction::Assign => old(self)@.assignees.added(
                        data@.agent,
                        tag_of(event@, wall, data@.agent),
                    ),
                    AssignAction::Unassign => without(old(self)@.assignees, data@.agent),
                },
                ..old(self)@
            }),
    {
        match data.action {
            AssignAction::Assign => {
                let tag = make_tag(event, wall, data.agent.as_str());
                self.assignees.add(data.agent.clone(), tag);
            },
            AssignAction::Unassign => {
                self.assignees.remove(&data.agent);
            },
        }
    }

    fn apply_link(&mut self, event: &Event, data: &LinkData, wall: WallTime)
        ensures
            final(self)@ == if blocking(data@.link_type) {
                ItemView {
                    blocked_by: old(self)@.blocked_by.added(
                        data@.target,
                        tag_of(event@, wall, data@.target),
                    ),
                    ..old(self)@
                }
            } else if relating(data@.link_type) {
                ItemView {
                    related_to: old(self)@.related_to.added(
                        data@.target,
                        tag_of(event@, wall, data@.target),
                    ),
                    ..old(self)@
                }
            } else {
                old(self)@
            },
    {
        let tag = make_tag(event, wall, data.target.as_str());
        if is_blocking(data.link_type.as_str()) {
            self.blocked_by.add(data.target.clone(), tag);
        } else if is_relating(data.link_type.as_str()) {
            self.related_to.add(data.target.clone(), tag);
        }
    }

    fn apply_unlink(&mut self, data: &UnlinkData)
        ensures
            final(self)@ == (ItemView {
                blocked_by: if data@.link_type is None || blocking(data@.link_type->0) {
                    without(old(self)@.blocked_by, data@.target)
                } else {
                    old(self)@.blocked_by
                },
                related_to: if data@.link_type is None || relating(data@.link_type->0) {
                    without(old(self)@.related_to, data@.target)
                } else {
                    old(self)@.related_to
                },
                ..old(self)@
            }),
    {
        let (is_blocked, is_related) = match &data.link_type {
            None => (true, true),
            Some(link_type) => (
                is_blocking(link_type.as_str()),
                is_relating(link_type.as_str()),
            ),
        };
        if is_blocked {
            self.blocked_by.remove(&data.target);
        }
        if is_related {
            self.related_to.remove(&data.target);
        }
    }

    /// Applies an event, given the moment for the tags of added values. See
    /// [`WorkItemState::apply_event`].
    pub fn apply_event_at(&mut self, event: &Event, wall: WallTime)
        requires
            countable(old(self)@, event@),
        ensures
            final(self)@ == applied(old(self)@, event@, wall),
            old(self)@.wf() ==> final(self)@.wf(),
    {
        let wall_ts = as_unsigned(event.wall_ts_us);
        if self.created_at == 0 || wall_ts < self.created_at {
            self.created_at = wall_ts;
        }
        if wall_ts > self.updated_at {
            self.updated_at = wall_ts;
        }
        let ghost timed = self@;
        let stamp = derive_stamp_from_hash(event.event_hash.as_str());
        match event.event_type {
            EventType::Create => {
                if let EventData::Create(data) = &event.data {
                    self.apply_create(event, data, &stamp, wall);
                }
            },
            EventType::Update => {
                if let EventData::Update(data) = &event.data {
                    self.apply_update(event, data, &stamp, wall);
                }
            },
            EventType::Move => {
                if let EventData::Move(data) = &event.data {
                    apply_phase_transition(&mut self.state, state_to_phase(data.state));
                }
            },
            EventType::Assign => {
                if let EventData::Assign(data) = &event.data {
                    self.apply_assign(event, data, wall);
                }
            },
            EventType::Comment => {
                if let EventData::Comment(_) = &event.data {
                    self.comments.insert(event.event_hash.clone());
                }
            },
            EventType::Link => {
                if let EventData::Link(data) = &event.data {
                    self.apply_link(event, data, wall);
                }
            },
            EventType::Unlink => {
                if let EventData::Unlink(data) = &event.data {
                    self.apply_unlink(data);
                }
            },
            EventType::Delete => {
                self.deleted = written_register(event, &stamp, true);
            },
            EventType::Compact => {
                if let EventData::Compact(data) = &event.data {
                    self.description = written_register(event, &stamp, data.summary.clone());
                }
            },
            EventType::Snapshot => {},
            EventType::Redact => {},
        }
    }

    /// Applies an event: writes the field that the event is about, with the
    /// event's time, agent and hash.
    ///
    /// Unknown update fields and link types are ignored, and so are values that
    /// do not fit. Snapshots and redactions change nothing. The moment in the
    /// tags of added values is that of the event; it is the present one where
    /// the calendar has no such moment.
    pub fn apply_event(&mut self, event: &Event)
        requires
            countable(old(self)@, event@),
        ensures
            exists|wall: WallTime|
                moment_or_any(unsigned(event@.wall_ts_us), wall) && final(self)@
                    == #[trigger] applied(old(self)@, event@, wall),
            old(self)@.wf() ==> final(self)@.wf(),
    {
        let wall = wall_time_of(as_unsigned(event.wall_ts_us));
        self.apply_event_at(event, wall);
    }

    /// Whether the item is deleted.
    pub fn is_deleted(&self) -> (r: bool)
        ensures
            r == self@.deleted.value,
    {
        self.deleted.value
    }

    /// The current lifecycle phase.
    pub fn phase(&self) -> (r: Phase)
        ensures
            r == self@.state.phase,
    {
        self.state.phase
    }

    /// The current epoch.
    pub fn epoch(&self) -> (r: u64)
        ensures
            r == self@.state.epoch,
    {
        self.state.epoch
    }

    /// The current assignees.
    pub fn assignee_names(&self) -> (r: Elements<String>)
        ensures
            forall|v: Seq<char>| #[trigger] r@.contains(v) <==> self@.assignees.has(v),
    {
        self.assignees.values()
    }

    /// The current labels.
    pub fn label_names(&self) -> (r: Elements<String>)
        ensures
            forall|v: Seq<char>| #[trigger] r@.contains(v) <==> self@.labels.has(v),
    {
        self.labels.values()
    }

    /// The items that block this one.
    pub fn blocked_by_ids(&self) -> (r: Elements<String>)
        ensures
            forall|v: Seq<char>| #[trigger] r@.contains(v) <==> self@.blocked_by.has(v),
    {
        self.blocked_by.values()
    }

    /// The related items.
    pub fn related_to_ids(&self) -> (r: Elements<String>)
        ensures
            forall|v: Seq<char>| #[trigger] r@.contains(v) <==> self@.related_to.has(v),
    {
        self.related_to.values()
    }

    /// The hashes of comment events.
    pub fn comment_hashes(&self) -> (r: &Elements<String>)
        ensures
            r@ == self@.comments,
    {
        &self.comments.elements
    }
}

impl Default for WorkItemState {
    fn default() -> (r: Self)
        ensures
            r@ == ItemView::fresh(),
    {
        WorkItemState::new()
    }
}

impl Clone for WorkItemState {
    fn clone(&self) -> (r: Self)
        ensures
            r@ == self@,
    {
        WorkItemState {
            title: self.title.clone(),
            description: self.description.clone(),
            kind: self.kind.clone(),
            state: self.state,
            size: self.size.clone(),
            urgency: self.urgency.clone(),
            parent: self.parent.clone(),
            assignees: self.assignees.clone(),
            labels: self.labels.clone(),
            blocked_by: self.blocked_by.clone(),
            related_to: self.related_to.clone(),
            comments: self.comments.clone(),
            deleted: self.deleted.clone(),
            created_at: self.created_at,
            updated_at: self.updated_at,
        }
    }
}

/// Whether a merge of two registers gives the same in either order: they are the
/// same, or one is causally later, or the writes differ in wall clock, agent or
/// hash.
pub open spec fn settled<V>(a: Reg<V>, b: Reg<V>) -> bool {
    let ahead = a.write.stamp.below(b.write.stamp);
    let behind = b.write.stamp.below(a.write.stamp);
    ||| a == b
    ||| ahead != behind
    ||| a.write.wall_ts != b.write.wall_ts
    ||| a.write.agent != b.write.agent
    ||| a.write.hash != b.write.hash
}

/// Whether three registers are preferred in a circle.
pub open spec fn circular<V>(a: Reg<V>, b: Reg<V>, c: Reg<V>) -> bool {
    ||| a.write.wins(b.write) && b.write.wins(c.write) && !a.write.wins(c.write)
    ||| !a.write.wins(b.write) && !b.write.wins(c.write) && a.write.wins(c.write)
}

impl ItemView {
    /// Whether all registers of two states are settled.
    pub open spec fn settled_with(self, other: ItemView) -> bool {
        &&& settled(self.title, other.title)
        &&& settled(self.description, other.description)
        &&& settled(self.kind, other.kind)
        &&& settled(self.size, other.size)
        &&& settled(self.urgency, other.urgency)
        &&& settled(self.parent, other.parent)
        &&& settled(self.deleted, other.deleted)
    }

    /// Whether some registers of three states are preferred in a circle.
    pub open spec fn circular_with(self, b: ItemView, c: ItemView) -> bool {
        ||| circular(self.title, b.title, c.title)
        ||| circular(self.description, b.description, c.description)
        ||| circular(self.kind, b.kind, c.kind)
        ||| circular(self.size, b.size, c.size)
        ||| circular(self.urgency, b.urgency, c.urgency)
        ||| circular(self.parent, b.parent, c.parent)
        ||| circular(self.deleted, b.deleted, c.deleted)
    }
}

proof fn lemma_settled_commutes<V>(a: Reg<V>, b: Reg<V>)
    requires
        settled(a, b),
    ensures
        a.join(b) == b.join(a),
{
    lex_lt_asymmetric(a.write.agent, b.write.agent);
    lex_lt_total(a.write.agent, b.write.agent);
    lex_lt_asymmetric(a.write.hash, b.write.hash);
    lex_lt_total(a.write.hash, b.write.hash);
}

/// Merging a state into itself changes nothing.
pub proof fn item_merge_is_idempotent(a: ItemView)
    ensures
        a.join(a) == a,
{
    orset_merge_is_a_semilattice(a.assignees, a.assignees, a.assignees);
    orset_merge_is_a_semilattice(a.labels, a.labels, a.labels);
    orset_merge_is_a_semilattice(a.blocked_by, a.blocked_by, a.blocked_by);
    orset_merge_is_a_semilattice(a.related_to, a.related_to, a.related_to);
    assert(a.comments.union(a.comments) =~= a.comments);
}

/// Two states merge to the same state in either order, wherever their registers
/// are settled.
pub proof fn item_merge_is_commutative(a: ItemView, b: ItemView)
    requires
        a.settled_with(b),
    ensures
        a.join(b) == b.join(a),
{
    lemma_settled_commutes(a.title, b.title);
    lemma_settled_commutes(a.description, b.description);
    lemma_settled_commutes(a.kind, b.kind);
    lemma_settled_commutes(a.size, b.size);
    lemma_settled_commutes(a.urgency, b.urgency);
    lemma_settled_commutes(a.parent, b.parent);
    lemma_settled_commutes(a.deleted, b.deleted);
    state_merge_is_a_semilattice(a.state, b.state, a.state);
    orset_merge_is_a_semilattice(a.assignees, b.assignees, a.assignees);
    orset_merge_is_a_semilattice(a.labels, b.labels, a.labels);
    orset_merge_is_a_semilattice(a.blocked_by, b.blocked_by, a.blocked_by);
    orset_merge_is_a_semilattice(a.related_to, b.related_to, a.related_to);
    assert(a.comments.union(b.comments) =~= b.comments.union(a.comments));
}

proof fn lemma_circle_free_associates<V>(a: Reg<V>, b: Reg<V>, c: Reg<V>)
    requires
        !circular(a, b, c),
    ensures
        a.join(b).join(c) == a.join(b.join(c)),
{
}

proof fn lemma_earliest_associates(a: u64, b: u64, c: u64)
    ensures
        earliest(earliest(a, b), c) == earliest(a, earliest(b, c)),
{
}

/// Three states merge to the same state in either grouping, wherever no
/// registers are preferred in a circle.
#[verifier::spinoff_prover]
pub proof fn item_merge_is_associative(a: ItemView, b: ItemView, c: ItemView)
    requires
        !a.circular_with(b, c),
    ensures
        a.join(b).join(c) == a.join(b.join(c)),
{
    let l = a.join(b).join(c);
    let r = a.join(b.join(c));
    assert(l.title == r.title) by {
        lemma_circle_free_associates(a.title, b.title, c.title);
    }
    assert(l.description == r.description) by {
        lemma_circle_free_associates(a.description, b.description, c.description);
    }
    assert(l.kind == r.kind) by {
        lemma_circle_free_associates(a.kind, b.kind, c.kind);
    }
    assert(l.size == r.size) by {
        lemma_circle_free_associates(a.size, b.size, c.size);
    }
    assert(l.urgency == r.urgency) by {
        lemma_circle_free_associates(a.urgency, b.urgency, c.urgency);
    }
    assert(l.parent == r.parent) by {
        lemma_circle_free_associates(a.parent, b.parent, c.parent);
    }
    assert(l.deleted == r.deleted) by {
        lemma_circle_free_associates(a.deleted, b.deleted, c.deleted);
    }
    state_merge_is_a_semilattice(a.state, b.state, c.state);
    orset_merge_is_a_semilattice(a.assignees, b.assignees, c.assignees);
    orset_merge_is_a_semilattice(a.labels, b.labels, c.labels);
    orset_merge_is_a_semilattice(a.blocked_by, b.blocked_by, c.blocked_by);
    orset_merge_is_a_semilattice(a.related_to, b.related_to, c.related_to);
    assert(l.comments =~= r.comments);
    lemma_earliest_associates(a.created_at, b.created_at, c.created_at);
}

proof fn lemma_unwritten_gives_way(w: Write)
    ensures
        w.wins(unwritten()),
{
    assert(unwritten().stamp.below(w.stamp));
    if w.agent.len() > 0 {
        assert(parts_below(Seq::empty(), w.agent, 0)) by {
            assert(Seq::<char>::empty().take(0) =~= w.agent.take(0));
        }
    } else {
        assert(w.agent =~= Seq::empty());
    }
    if w.hash.len() > 0 {
        assert(parts_below(Seq::empty(), w.hash, 0)) by {
            assert(Seq::<char>::empty().take(0) =~= w.hash.take(0));
        }
    } else {
        assert(w.hash =~= Seq::empty());
    }
}

/// Merging the state of an item that nothing has happened to changes nothing.
pub proof fn fresh_state_adds_nothing(a: ItemView)
    ensures
        a.join(ItemView::fresh()) == a,
{
    lemma_unwritten_gives_way(a.title.write);
    lemma_unwritten_gives_way(a.description.write);
    lemma_unwritten_gives_way(a.kind.write);
    lemma_unwritten_gives_way(a.size.write);
    lemma_unwritten_gives_way(a.urgency.write);
    lemma_unwritten_gives_way(a.parent.write);
    lemma_unwritten_gives_way(a.deleted.write);
    let b = a.join(ItemView::fresh());
    assert(b.assignees =~= a.assignees);
    assert(b.labels =~= a.labels);
    assert(b.blocked_by =~= a.blocked_by);
    assert(b.related_to =~= a.related_to);
    assert(b.comments =~= a.comments);
}

/// Whether an event wrote the register.
pub open spec fn event_wrote<V>(r: Reg<V>) -> bool {
    r.write.stamp == bit_stamp(text_hash(r.write.hash))
}

/// Whether two registers are the same, or hold writes of events with different
/// hashes, or one of them was never written.
pub open spec fn told_apart<V>(a: Reg<V>, b: Reg<V>) -> bool {
    ||| a == b
    ||| a.write == unwritten() && event_wrote(b)
    ||| event_wrote(a) && b.write == unwritten()
    ||| event_wrote(a) && event_wrote(b) && a.write.hash != b.write.hash
}

impl ItemView {
    /// Whether the writes of two states can be told apart.
    pub open spec fn told_apart_from(self, other: ItemView) -> bool {
        &&& told_apart(self.title, other.title)
        &&& told_apart(self.description, other.description)
        &&& told_apart(self.kind, other.kind)
        &&& told_apart(self.size, other.size)
        &&& told_apart(self.urgency, other.urgency)
        &&& told_apart(self.parent, other.parent)
        &&& told_apart(self.deleted, other.deleted)
    }
}

proof fn lemma_told_apart_is_settled<V>(a: Reg<V>, b: Reg<V>)
    requires
        told_apart(a, b),
    ensures
        settled(a, b),
        a == b || {
            ||| a.write == unwritten() && b.write.stamp != a.write.stamp && !a.write.wins(b.write)
                && b.write.wins(a.write)
            ||| b.write == unwritten() && b.write.stamp != a.write.stamp && a.write.wins(b.write)
                && !b.write.wins(a.write)
            ||| a.write.stamp.below(b.write.stamp) == b.write.stamp.below(a.write.stamp)
        },
{
    if a != b {
        if a.write == unwritten() && event_wrote(b) {
            bit_stamps_come_after_the_seed(text_hash(b.write.hash));
        } else if event_wrote(a) && b.write == unwritten() {
            bit_stamps_come_after_the_seed(text_hash(a.write.hash));
        } else {
            bit_stamps_are_concurrent_or_same(
                text_hash(a.write.hash),
                text_hash(b.write.hash),
            );
        }
    }
}

proof fn lemma_told_apart_is_not_circular<V>(a: Reg<V>, b: Reg<V>, c: Reg<V>)
    requires
        told_apart(a, b),
        told_apart(b, c),
        told_apart(a, c),
    ensures
        !circular(a, b, c),
{
    lemma_told_apart_is_settled(a, b);
    lemma_told_apart_is_settled(b, c);
    lemma_told_apart_is_settled(a, c);
    outranks_is_total_preorder(a.write, b.write, c.write);
    outranks_is_total_preorder(c.write, b.write, a.write);
    outranks_is_total_preorder(b.write, a.write, c.write);
    outranks_is_total_preorder(a.write, c.write, b.write);
}

/// States that events brought about merge to the same state in any order and
/// grouping, as long as different events have different hashes.
pub proof fn item_merge_of_events_is_a_semilattice(a: ItemView, b: ItemView, c: ItemView)
    requires
        a.told_apart_from(b),
        b.told_apart_from(c),
        a.told_apart_from(c),
    ensures
        a.join(a) == a,
        a.join(b) == b.join(a),
        a.join(b).join(c) == a.join(b.join(c)),
{
    item_merge_is_idempotent(a);
    lemma_told_apart_is_settled(a.title, b.title);
    lemma_told_apart_is_settled(a.description, b.description);
    lemma_told_apart_is_settled(a.kind, b.kind);
    lemma_told_apart_is_settled(a.size, b.size);
    lemma_told_apart_is_settled(a.urgency, b.urgency);
    lemma_told_apart_is_settled(a.parent, b.parent);
    lemma_told_apart_is_settled(a.deleted, b.deleted);
    item_merge_is_commutative(a, b);
    lemma_told_apart_is_not_circular(a.title, b.title, c.title);
    lemma_told_apart_is_not_circular(a.description, b.description, c.description);
    lemma_told_apart_is_not_circular(a.kind, b.kind, c.kind);
    lemma_told_apart_is_not_circular(a.size, b.size, c.size);
    lemma_told_apart_is_not_circular(a.urgency, b.urgency, c.urgency);
    lemma_told_apart_is_not_circular(a.parent, b.parent, c.parent);
    lemma_told_apart_is_not_circular(a.deleted, b.deleted, c.deleted);
    item_merge_is_associative(a, b, c);
}

/// The state that events bring about, one after the other. Each comes with the
/// moment in the tags of the values that it adds.
pub open spec fn history(log: Seq<(EventView, WallTime)>) -> ItemView
    decreases log.len(),
{
    if log.len() == 0 {
        ItemView::fresh()
    } else {
        applied(history(log.drop_last()), log.last().0, log.last().1)
    }
}

/// Whether events of two logs with the same hash are the same event.
pub open spec fn hashes_tell(
    a: Seq<(EventView, WallTime)>,
    b: Seq<(EventView, WallTime)>,
) -> bool {
    forall|i: int, j: int|
        0 <= i < a.len() && 0 <= j < b.len() && (#[trigger] a[i]).0.event_hash == (
        #[trigger] b[j]).0.event_hash ==> a[i].0 == b[j].0
}

/// What an event alone brings about.
spec fn alone(e: EventView) -> ItemView {
    changed(ItemView::fresh(), e, WallTime { secs: 0, nanos: 0 })
}

/// Whether a register was never written, or was written by an event of a log.
spec fn sourced<V>(
    r: Reg<V>,
    first: Reg<V>,
    source: spec_fn(EventView) -> Reg<V>,
    log: Seq<(EventView, WallTime)>,
) -> bool {
    r == first || exists|i: int|
        0 <= i < log.len() && r == source((#[trigger] log[i]).0) && r.write == write_of(log[i].0)
}

spec fn title_by() -> spec_fn(EventView) -> Reg<Seq<char>> {
    |e: EventView| alone(e).title
}

spec fn description_by() -> spec_fn(EventView) -> Reg<Seq<char>> {
    |e: EventView| alone(e).description
}

spec fn kind_by() -> spec_fn(EventView) -> Reg<Kind> {
    |e: EventView| alone(e).kind
}

spec fn size_by() -> spec_fn(EventView) -> Reg<Option<Size>> {
    |e: EventView| alone(e).size
}

spec fn urgency_by() -> spec_fn(EventView) -> Reg<Urgency> {
    |e: EventView| alone(e).urgency
}

spec fn parent_by() -> spec_fn(EventView) -> Reg<Seq<char>> {
    |e: EventView| alone(e).parent
}

spec fn deleted_by() -> spec_fn(EventView) -> Reg<bool> {
    |e: EventView| alone(e).deleted
}

/// Whether all registers of a state were written by events of a log, or never.
spec fn all_sourced(s: ItemView, log: Seq<(EventView, WallTime)>) -> bool {
    let first = ItemView::fresh();
    &&& sourced(s.title, first.title, title_by(), log)
    &&& sourced(s.description, first.description, description_by(), log)
    &&& sourced(s.kind, first.kind, kind_by(), log)
    &&& sourced(s.size, first.size, size_by(), log)
    &&& sourced(s.urgency, first.urgency, urgency_by(), log)
    &&& sourced(s.parent, first.parent, parent_by(), log)
    &&& sourced(s.deleted, first.deleted, deleted_by(), log)
}

/// Whether a register is as it was, or as an event writes it.
spec fn kept_or_written<V>(
    before: Reg<V>,
    after: Reg<V>,
    source: spec_fn(EventView) -> Reg<V>,
    e: EventView,
) -> bool {
    after == before || (after == source(e) && after.write == write_of(e))
}

/// An event leaves a register as it is, or writes to it what it would alone.
#[verifier::spinoff_prover]
proof fn lemma_writes_are_its_own(s: ItemView, e: EventView, wall: WallTime)
    ensures
        kept_or_written(s.title, applied(s, e, wall).title, title_by(), e),
        kept_or_written(s.description, applied(s, e, wall).description, description_by(), e),
        kept_or_written(s.kind, applied(s, e, wall).kind, kind_by(), e),
        kept_or_written(s.size, applied(s, e, wall).size, size_by(), e),
        kept_or_written(s.urgency, applied(s, e, wall).urgency, urgency_by(), e),
        kept_or_written(s.parent, applied(s, e, wall).parent, parent_by(), e),
        kept_or_written(s.deleted, applied(s, e, wall).deleted, deleted_by(), e),
{
    let a = changed(s, e, wall);
    let b = alone(e);
    match (e.event_type, e.data) {
        (EventType::Create, Payload::Create(d)) => {
            assert(a == created(s, e, d, wall));
            assert(b == created(ItemView::fresh(), e, d, WallTime { secs: 0, nanos: 0 }));
        },
        (EventType::Update, Payload::Update(d)) => {
            assert(a == updated(s, e, d, wall));
            assert(b == updated(ItemView::fresh(), e, d, WallTime { secs: 0, nanos: 0 }));
        },
        _ => {},
    }
}

proof fn lemma_sourced_grows<V>(
    before: Reg<V>,
    after: Reg<V>,
    first: Reg<V>,
    source: spec_fn(EventView) -> Reg<V>,
    log: Seq<(EventView, WallTime)>,
    last: (EventView, WallTime),
)
    requires
        sourced(before, first, source, log),
        kept_or_written(before, after, source, last.0),
    ensures
        sourced(after, first, source, log.push(last)),
{
    let next = log.push(last);
    if after == before {
        if before != first {
            let i = choose|i: int|
                0 <= i < log.len() && before == source((#[trigger] log[i]).0) && before.write
                    == write_of(log[i].0);
            assert(next[i] == log[i]);
        }
    } else {
        assert(next[log.len() as int] == last);
    }
}

proof fn lemma_history_is_sourced(log: Seq<(EventView, WallTime)>)
    ensures
        all_sourced(history(log), log),
    decreases log.len(),
{
    if log.len() > 0 {
        let front = log.drop_last();
        let last = log.last();
        let before = history(front);
        let after = history(log);
        let first = ItemView::fresh();
        lemma_history_is_sourced(front);
        lemma_writes_are_its_own(before, last.0, last.1);
        assert(front.push(last) =~= log);
        lemma_sourced_grows(before.title, after.title, first.title, title_by(), front, last);
        lemma_sourced_grows(
            before.description,
            after.description,
            first.description,
            description_by(),
            front,
            last,
        );
        lemma_sourced_grows(before.kind, after.kind, first.kind, kind_by(), front, last);
        lemma_sourced_grows(before.size, after.size, first.size, size_by(), front, last);
        lemma_sourced_grows(
            before.urgency,
            after.urgency,
            first.urgency,
            urgency_by(),
            front,
            last,
        );
        lemma_sourced_grows(before.parent, after.parent, first.parent, parent_by(), front, last);
        lemma_sourced_grows(
            before.deleted,
            after.deleted,
            first.deleted,
            deleted_by(),
            front,
            last,
        );
    }
}

proof fn lemma_sourced_told_apart<V>(
    a: Reg<V>,
    b: Reg<V>,
    first: Reg<V>,
    source: spec_fn(EventView) -> Reg<V>,
    xs: Seq<(EventView, WallTime)>,
    ys: Seq<(EventView, WallTime)>,
)
    requires
        first.write == unwritten(),
        sourced(a, first, source, xs),
        sourced(b, first, source, ys),
        hashes_tell(xs, ys),
    ensures
        told_apart(a, b),
{
}

proof fn lemma_histories_told_apart(
    xs: Seq<(EventView, WallTime)>,
    ys: Seq<(EventView, WallTime)>,
)
    requires
        hashes_tell(xs, ys),
    ensures
        history(xs).told_apart_from(history(ys)),
{
    let a = history(xs);
    let b = history(ys);
    let first = ItemView::fresh();
    lemma_history_is_sourced(xs);
    lemma_history_is_sourced(ys);
    lemma_sourced_told_apart(a.title, b.title, first.title, title_by(), xs, ys);
    lemma_sourced_told_apart(
        a.description,
        b.description,
        first.description,
        description_by(),
        xs,
        ys,
    );
    lemma_sourced_told_apart(a.kind, b.kind, first.kind, kind_by(), xs, ys);
    lemma_sourced_told_apart(a.size, b.size, first.size, size_by(), xs, ys);
    lemma_sourced_told_apart(a.urgency, b.urgency, first.urgency, urgency_by(), xs, ys);
    lemma_sourced_told_apart(a.parent, b.parent, first.parent, parent_by(), xs, ys);
    lemma_sourced_told_apart(a.deleted, b.deleted, first.deleted, deleted_by(), xs, ys);
}

/// Replicas that events have brought about converge: whatever events each has
/// seen, their states merge to the same state in any order and grouping, as long
/// as different events have different hashes.
pub proof fn replicas_converge(
    xs: Seq<(EventView, WallTime)>,
    ys: Seq<(EventView, WallTime)>,
    zs: Seq<(EventView, WallTime)>,
)
    requires
        hashes_tell(xs, ys),
        hashes_tell(ys, zs),
        hashes_tell(xs, zs),
    ensures
        ({
            let (a, b, c) = (history(xs), history(ys), history(zs));
            &&& a.join(a) == a
            &&& a.join(b) == b.join(a)
            &&& a.join(b).join(c) == a.join(b.join(c))
        }),
{
    lemma_histories_told_apart(xs, ys);
    lemma_histories_told_apart(ys, zs);
    lemma_histories_told_apart(xs, zs);
    item_merge_of_events_is_a_semilattice(history(xs), history(ys), history(zs));
}

/// Merging an item that events have brought about into the state of an item that
/// nothing has happened to gives that item, and the other way round.
pub proof fn fresh_state_is_the_identity(log: Seq<(EventView, WallTime)>)
    ensures
        ItemView::fresh().join(history(log)) == history(log),
        history(log).join(ItemView::fresh()) == history(log),
{
    let none = Seq::<(EventView, WallTime)>::empty();
    assert(history(none) == ItemView::fresh());
    lemma_histories_told_apart(none, log);
    fresh_state_adds_nothing(history(log));
    item_merge_of_events_is_a_semilattice(history(none), history(log), history(log));
}

proof fn lemma_with_all_twice(
    set: Tagged<Seq<char>>,
    e: EventView,
    wall: WallTime,
    values: Seq<Seq<char>>,
    n: int,
)
    requires
        0 <= n <= values.len(),
    ensures
        with_all(with_all(set, e, wall, values), e, wall, values.take(n)) == with_all(
            set,
            e,
            wall,
            values,
        ),
    decreases n,
{
    let all = with_all(set, e, wall, values);
    if n > 0 {
        lemma_with_all_twice(set, e, wall, values, n - 1);
        assert(values.take(n).drop_last() =~= values.take(n - 1));
        let v = values[n - 1];
        assert(values.take(n).last() == v);
        lemma_with_all_holds(set, e, wall, values, n - 1);
        assert(all.added(v, tag_of(e, wall, v)) =~= all);
    }
}

proof fn lemma_with_all_holds(
    set: Tagged<Seq<char>>,
    e: EventView,
    wall: WallTime,
    values: Seq<Seq<char>>,
    n: int,
)
    requires
        0 <= n < values.len(),
    ensures
        with_all(set, e, wall, values).elements.contains(
            (values[n], tag_of(e, wall, values[n])),
        ),
    decreases values.len(),
{
    if n < values.len() - 1 {
        lemma_with_all_holds(set, e, wall, values.drop_last(), n);
        assert(values.drop_last()[n] == values[n]);
    }
}

/// Applying an event a second time changes nothing.
pub proof fn applying_twice_changes_nothing(s: ItemView, e: EventView, wall: WallTime)
    requires
        countable(s, e),
    ensures
        countable(applied(s, e, wall), e),
        applied(applied(s, e, wall), e, wall) == applied(s, e, wall),
{
    let once = applied(s, e, wall);
    let twice = applied(once, e, wall);
    match e.data {
        Payload::Create(d) => {
            lemma_with_all_twice(s.labels, e, wall, d.labels, d.labels.len() as int);
            assert(d.labels.take(d.labels.len() as int) =~= d.labels);
        },
        _ => {},
    }
    assert(twice.assignees =~= once.assignees);
    assert(twice.labels =~= once.labels);
    assert(twice.blocked_by =~= once.blocked_by);
    assert(twice.related_to =~= once.related_to);
    assert(twice.comments =~= once.comments);
}

}
