//! Observed-remove set in which adds win.
//!
//! Every add carries a tag of its own, and a remove puts tombstones on the tags
//! that it has seen. An add that the remove has not seen brings a tag without a
//! tombstone, so the value stays in the set.

use crate::crdt::elements::{Element, Elements};
use crate::crdt::merge::Merge;
use crate::crdt::tags::{event_tag, tag_for_event, timed};
use crate::crdt::{OrSet, Timestamp};
use crate::dag::graph::{precedes, EventDag, Graph};
use crate::dag::lca::{absent, common, found, LcaError};
use crate::dag::replay::{
    replay_divergent, replays, since, DivergentReplay, ReplayError,
};
use crate::event::data::{AssignAction, EventData, Payload};
use crate::event::json::JsonTree;
use crate::event::types::EventType;
use crate::event::{event_views, Event, EventView};
use crate::text::slice::str_eq;
use vstd::prelude::*;

verus! {

/// An operation on an observed-remove set.
#[derive(Debug, Clone, PartialEq, Eq)]
pub enum OrSetOp<T> {
    /// Add an element with a unique tag.
    Add(T, Timestamp),
    /// Remove an element, putting tombstones on the observed tags.
    Remove(T, Vec<Timestamp>),
}

/// What an observed-remove set holds: the tagged values that were added and
/// those that were removed.
#[verifier::ext_equal]
#[verifier::reject_recursive_types(V)]
pub ghost struct Tagged<V> {
    pub elements: Set<(V, Timestamp)>,
    pub tombstone: Set<(V, Timestamp)>,
}

/// An operation as the set sees it: the order of observed tags does not count.
#[verifier::reject_recursive_types(V)]
pub ghost enum TagOp<V> {
    Add(V, Timestamp),
    Remove(V, Set<Timestamp>),
}

impl<T: View> View for OrSetOp<T> {
    type V = TagOp<T::V>;

    open spec fn view(&self) -> TagOp<T::V> {
        match self {
            OrSetOp::Add(value, tag) => TagOp::Add(value@, *tag),
            OrSetOp::Remove(value, tags) => TagOp::Remove(value@, tags@.to_set()),
        }
    }
}

impl<V> Tagged<V> {
    /// The set without values.
    pub open spec fn empty() -> Tagged<V> {
        Tagged { elements: Set::empty(), tombstone: Set::empty() }
    }

    /// Whether a value was added with a tag that has no tombstone.
    pub open spec fn live(self, value: V, tag: Timestamp) -> bool {
        self.elements.contains((value, tag)) && !self.tombstone.contains((value, tag))
    }

    /// Whether a value is present.
    pub open spec fn has(self, value: V) -> bool {
        exists|tag: Timestamp| #[trigger] self.live(value, tag)
    }

    /// Every tag with which a value was added.
    pub open spec fn tags(self, value: V) -> Set<Timestamp> {
        Set::new(|tag: Timestamp| self.elements.contains((value, tag)))
    }

    /// The tags of a value that have no tombstone.
    pub open spec fn live_tags(self, value: V) -> Set<Timestamp> {
        Set::new(|tag: Timestamp| self.live(value, tag))
    }

    /// The set after an add.
    pub open spec fn added(self, value: V, tag: Timestamp) -> Tagged<V> {
        Tagged { elements: self.elements.insert((value, tag)), ..self }
    }

    /// A value with each of some tags.
    pub open spec fn pairs(value: V, tags: Set<Timestamp>) -> Set<(V, Timestamp)> {
        Set::new(|p: (V, Timestamp)| p.0 == value && tags.contains(p.1))
    }

    /// The set after a remove that has seen the given tags.
    pub open spec fn removed(self, value: V, tags: Set<Timestamp>) -> Tagged<V> {
        Tagged { tombstone: self.tombstone.union(Self::pairs(value, tags)), ..self }
    }

    /// The set after an operation.
    pub open spec fn applied(self, op: TagOp<V>) -> Tagged<V> {
        match op {
            TagOp::Add(value, tag) => self.added(value, tag),
            TagOp::Remove(value, tags) => self.removed(value, tags),
        }
    }

    /// The set after a sequence of operations.
    pub open spec fn replayed(self, ops: Seq<TagOp<V>>) -> Tagged<V>
        decreases ops.len(),
    {
        if ops.len() == 0 {
            self
        } else {
            self.replayed(ops.drop_last()).applied(ops.last())
        }
    }

    /// The union of two sets.
    pub open spec fn union(self, other: Tagged<V>) -> Tagged<V> {
        Tagged {
            elements: self.elements.union(other.elements),
            tombstone: self.tombstone.union(other.tombstone),
        }
    }
}

impl<T: Element> View for OrSet<T> {
    type V = Tagged<T::V>;

    open spec fn view(&self) -> Tagged<T::V> {
        Tagged { elements: self.elements@, tombstone: self.tombstone@ }
    }
}

/// The first `n` tags of a list, as a set.
proof fn lemma_take_set(tags: Seq<Timestamp>, n: int)
    requires
        0 <= n < tags.len(),
    ensures
        tags.take(n + 1).to_set() == tags.take(n).to_set().insert(tags[n]),
{
    let next = tags.take(n + 1);
    let part = tags.take(n);
    assert forall|x: Timestamp| #[trigger] next.to_set().contains(x) == part.to_set().insert(
        tags[n],
    ).contains(x) by {
        if part.contains(x) {
            let k = choose|k: int| 0 <= k < part.len() && part[k] == x;
            assert(next[k] == x);
        }
        if x == tags[n] {
            assert(next[n] == x);
        }
        if next.contains(x) {
            let k = choose|k: int| 0 <= k < next.len() && next[k] == x;
            if k < n {
                assert(part[k] == x);
            }
        }
    }
    assert(next.to_set() =~= part.to_set().insert(tags[n]));
}

impl<T: Element> OrSet<T> {
    /// Creates an empty set.
    #[must_use]
    pub fn new() -> (r: Self)
        ensures
            r@ == Tagged::<T::V>::empty(),
    {
        OrSet { elements: Elements::new(), tombstone: Elements::new() }
    }

    /// Adds an element with a tag, which should be unique across operations.
    pub fn add(&mut self, value: T, tag: Timestamp)
        ensures
            final(self)@ == old(self)@.added(value@, tag),
    {
        self.elements.insert((value, tag));
    }

    /// Removes an element: puts a tombstone on every tag with which it was
    /// added here. Tags that come from elsewhere later on survive.
    ///
    /// Returns the tags that had no tombstone before, none if the element was not
    /// present.
    pub fn remove(&mut self, value: &T) -> (r: Vec<Timestamp>)
        ensures
            r@.no_duplicates(),
            r@.to_set() == old(self)@.live_tags(value@),
            final(self)@ == old(self)@.removed(value@, old(self)@.tags(value@)),
    {
        let tags = self.active_tags(value);
        proof {
            let before = self@;
            assert(before.removed(value@, before.live_tags(value@)) =~= before.removed(
                value@,
                before.tags(value@),
            ));
        }
        self.remove_specific(value, tags.as_slice());
        tags
    }

    /// Puts tombstones on the given tags of an element.
    pub fn remove_specific(&mut self, value: &T, tags: &[Timestamp])
        ensures
            final(self)@ == old(self)@.removed(value@, tags@.to_set()),
    {
        let mut i: usize = 0;
        proof {
            assert(tags@.take(0).to_set() =~= Set::empty());
            assert(self@ =~= old(self)@.removed(value@, tags@.take(0).to_set()));
        }
        while i < tags.len()
            invariant
                i <= tags.len(),
                self@ == old(self)@.removed(value@, tags@.take(i as int).to_set()),
            decreases tags.len() - i,
        {
            proof {
                lemma_take_set(tags@, i as int);
                let before = old(self)@.removed(value@, tags@.take(i as int).to_set());
                let after = old(self)@.removed(value@, tags@.take(i + 1).to_set());
                assert(before.tombstone.insert((value@, tags@[i as int])) =~= after.tombstone);
            }
            self.tombstone.insert((value.duplicate(), tags[i]));
            i += 1;
        }
        assert(tags@.take(i as int) =~= tags@);
    }

    /// Whether an element is present: it was added with a tag that has no
    /// tombstone.
    pub fn contains(&self, value: &T) -> (r: bool)
        ensures
            r == self@.has(value@),
    {
        let tags = self.active_tags(value);
        proof {
            if tags.len() > 0 {
                assert(tags@.to_set().contains(tags@[0]));
                assert(self@.live(value@, tags@[0]));
            }
            assert forall|tag: Timestamp| #[trigger] self@.live(value@, tag) implies tags@.len()
                > 0 by {
                assert(tags@.to_set().contains(tag));
            }
        }
        tags.len() > 0
    }

    /// All values that are present.
    #[must_use]
    pub fn values(&self) -> (r: Elements<T>)
        ensures
            forall|v: T::V| #[trigger] r@.contains(v) <==> self@.has(v),
    {
        let mut r: Elements<T> = Elements::new();
        let n = self.elements.len();
        let mut i: usize = 0;
        let ghost order = self.elements.order();
        while i < n
            invariant
                order == self.elements.order(),
                n == order.len(),
                i <= n,
                forall|v: T::V|
                    #![trigger r@.contains(v)]
                    r@.contains(v) ==> self@.has(v),
                forall|k: int|
                    0 <= k < i && self@.live((#[trigger] order[k]).0, order[k].1) ==> r@.contains(
                        order[k].0,
                    ),
            decreases n - i,
        {
            let pair = self.elements.get(i);
            if !self.tombstone.contains(pair) {
                assert(self@.live(pair.0@, pair.1));
                r.insert(pair.0.duplicate());
            }
            i += 1;
        }
        proof {
            self.elements.view_is_order();
            assert forall|v: T::V| self@.has(v) implies #[trigger] r@.contains(v) by {
                let tag = choose|tag: Timestamp| #[trigger] self@.live(v, tag);
                assert(order.contains((v, tag)));
                let k = choose|k: int| 0 <= k < order.len() && order[k] == (v, tag);
                assert(self@.live(order[k].0, order[k].1));
            }
        }
        r
    }

    /// The number of distinct values that are present.
    #[must_use]
    pub fn len(&self) -> (r: usize)
        ensures
            r == Set::new(|v: T::V| self@.has(v)).len(),
    {
        let values = self.values();
        assert(values@ =~= Set::new(|v: T::V| self@.has(v)));
        values.len()
    }

    /// Whether no value is present.
    #[must_use]
    pub fn is_empty(&self) -> (r: bool)
        ensures
            r == forall|v: T::V| !#[trigger] self@.has(v),
    {
        let values = self.values();
        let n = values.len();
        proof {
            if n == 0 {
                assert(values@ =~= Set::<T::V>::empty());
                assert forall|v: T::V| !#[trigger] self@.has(v) by {
                    assert(!values@.contains(v));
                }
            } else {
                let v = values@.choose();
                assert(values@.contains(v));
                assert(self@.has(v));
            }
        }
        n == 0
    }

    /// The tags of a value that have no tombstone.
    pub fn active_tags(&self, value: &T) -> (r: Vec<Timestamp>)
        ensures
            r@.no_duplicates(),
            r@.to_set() == self@.live_tags(value@),
    {
        let mut r: Vec<Timestamp> = Vec::new();
        let n = self.elements.len();
        let mut i: usize = 0;
        while i < n
            invariant
                n == self.elements.order().len(),
                i <= n,
                self.elements.order().no_duplicates(),
                r@.no_duplicates(),
                forall|tag: Timestamp|
                    #![trigger r@.contains(tag)]
                    r@.contains(tag) <==> (self.elements.order().take(i as int).contains(
                        (value@, tag),
                    ) && !self.tombstone@.contains((value@, tag))),
            decreases n - i,
        {
            let ghost before = r@;
            let ghost order = self.elements.order();
            let pair = self.elements.get(i);
            if pair.0.same(value) && !self.tombstone.contains(pair) {
                r.push(pair.1);
            }
            proof {
                assert(order.take(i + 1) =~= order.take(i as int).push(order[i as int]));
                assert forall|tag: Timestamp| #![trigger r@.contains(tag)]
                    r@.contains(tag) <==> (order.take(i + 1).contains((value@, tag)) && !self.tombstone@.contains(
                        (value@, tag),
                    )) by {
                    lemma_push_contains(order.take(i as int), order[i as int], (value@, tag));
                    if r@ != before {
                        lemma_push_contains(before, pair.1, tag);
                    }
                }
                if r@ != before {
                    assert(!before.contains(pair.1)) by {
                        if before.contains(pair.1) {
                            assert(order.take(i as int).contains(order[i as int]));
                            let k = choose|k: int|
                                0 <= k < i && order.take(i as int)[k] == order[i as int];
                            assert(order[k] == order[i as int]);
                        }
                    }
                }
            }
            i += 1;
        }
        proof {
            assert(self.elements.order().take(n as int) =~= self.elements.order());
            self.elements.view_is_order();
            assert(r@.to_set() =~= self@.live_tags(value@));
        }
        r
    }

    /// Applies an operation. A remove puts tombstones on the tags that it
    /// names and on no others.
    pub fn apply(&mut self, op: OrSetOp<T>)
        ensures
            final(self)@ == old(self)@.applied(op@),
    {
        match op {
            OrSetOp::Add(value, tag) => {
                self.add(value, tag);
            },
            OrSetOp::Remove(value, observed_tags) => {
                self.remove_specific(&value, observed_tags.as_slice());
            },
        }
    }

    /// Applies an operation that is kept elsewhere.
    fn apply_ref(&mut self, op: &OrSetOp<T>)
        ensures
            final(self)@ == old(self)@.applied(op@),
    {
        match op {
            OrSetOp::Add(value, tag) => {
                self.add(value.duplicate(), *tag);
            },
            OrSetOp::Remove(value, observed_tags) => {
                self.remove_specific(value, observed_tags.as_slice());
            },
        }
    }
}

/// What a sequence contains after a push.
proof fn lemma_push_contains<A>(s: Seq<A>, last: A, x: A)
    ensures
        s.push(last).contains(x) == (s.contains(x) || x == last),
{
    if s.contains(x) {
        let k = choose|k: int| 0 <= k < s.len() && s[k] == x;
        assert(s.push(last)[k] == x);
    }
    if x == last {
        assert(s.push(last)[s.len() as int] == x);
    }
}

impl<T: Element> Clone for OrSet<T> {
    fn clone(&self) -> (r: Self)
        ensures
            r@ == self@,
    {
        OrSet { elements: self.elements.clone(), tombstone: self.tombstone.clone() }
    }
}

impl<T: Element> Default for OrSet<T> {
    fn default() -> (r: Self)
        ensures
            r@ == Tagged::<T::V>::empty(),
    {
        OrSet::new()
    }
}

/// The union of what was added and of what was removed.
impl<T: Element> Merge for OrSet<T> {
    open spec fn absorbs(before: Self, other: Self, after: Self) -> bool {
        after@ == before@.union(other@)
    }

    fn merge(&mut self, other: Self) {
        self.elements.extend(&other.elements);
        self.tombstone.extend(&other.tombstone);
    }
}

/// Merging observed-remove sets is commutative, associative and idempotent.
pub proof fn orset_merge_is_a_semilattice<V>(a: Tagged<V>, b: Tagged<V>, c: Tagged<V>)
    ensures
        a.union(b) == b.union(a),
        a.union(b).union(c) == a.union(b.union(c)),
        a.union(a) == a,
{
    assert(a.union(b) =~= b.union(a));
    assert(a.union(b).union(c) =~= a.union(b.union(c)));
    assert(a.union(a) =~= a);
}

/// Adds win: a value that one replica adds, with a tag on which the other has
/// no tombstone, is present after a merge even though the other replica
/// removed every tag that it had seen.
pub proof fn concurrent_add_wins<V>(
    adder: Tagged<V>,
    remover: Tagged<V>,
    value: V,
    tag: Timestamp,
)
    requires
        !adder.tombstone.contains((value, tag)),
        !remover.tombstone.contains((value, tag)),
        !remover.elements.contains((value, tag)),
    ensures
        adder.added(value, tag).union(remover.removed(value, remover.tags(value))).has(value),
        remover.removed(value, remover.tags(value)).union(adder.added(value, tag)).has(value),
{
    let removed = remover.removed(value, remover.tags(value));
    assert(adder.added(value, tag).union(removed).live(value, tag));
    assert(removed.union(adder.added(value, tag)).live(value, tag));
}

/// A remove that has seen every tag of a value leaves it absent, and a later
/// add with a new tag brings it back.
pub proof fn remove_hides_and_new_add_restores<V>(set: Tagged<V>, value: V, tag: Timestamp)
    requires
        !set.tombstone.contains((value, tag)),
        !set.elements.contains((value, tag)),
    ensures
        !set.removed(value, set.tags(value)).has(value),
        set.removed(value, set.tags(value)).added(value, tag).has(value),
{
    let gone = set.removed(value, set.tags(value));
    assert forall|t: Timestamp| !#[trigger] gone.live(value, t) by {
        if set.elements.contains((value, t)) {
            assert(set.tags(value).contains(t));
        }
    }
    assert(gone.added(value, tag).live(value, tag));
}

/// The fields of a work item that are observed-remove sets.
#[derive(Clone, Copy, Debug, PartialEq, Eq, Structural)]
pub enum OrSetField {
    /// Labels, added and removed by `item.update` events for `labels`.
    Labels,
    /// Assignees, added and removed by `item.assign` events.
    Assignees,
    /// Blocking items, added and removed by `item.link` and `item.unlink`.
    BlockedBy,
    /// Related items, added and removed by `item.link` and `item.unlink`.
    RelatedTo,
}

/// What an event does to a set.
pub ghost enum Change {
    Add(Seq<char>),
    Remove(Seq<char>),
}

/// What an event does to a set, as values.
enum SetChange {
    Add(String),
    Remove(String),
}

/// Whether a link type belongs to a field.
pub open spec fn link_belongs(field: OrSetField, link_type: Seq<char>) -> bool {
    match field {
        OrSetField::BlockedBy => link_type == "blocks"@ || link_type == "blocked_by"@,
        OrSetField::RelatedTo => link_type == "related_to"@ || link_type == "related"@,
        _ => false,
    }
}

/// A text under a key, empty where the value is none.
pub open spec fn text_at(m: Map<Seq<char>, JsonTree>, key: Seq<char>) -> Seq<char> {
    match m[key] {
        JsonTree::Text(s) => s,
        _ => Seq::empty(),
    }
}

/// What an event does to a field.
pub open spec fn change_of(e: EventView, field: OrSetField) -> Option<Change> {
    match field {
        OrSetField::Assignees => match e.data {
            Payload::Assign(d) => Some(
                match d.action {
                    AssignAction::Assign => Change::Add(d.agent),
                    AssignAction::Unassign => Change::Remove(d.agent),
                },
            ),
            _ => None,
        },
        OrSetField::Labels => match (e.event_type, e.data) {
            (EventType::Update, Payload::Update(d)) => match d.value {
                JsonTree::Object(m) => if d.field == "labels"@ && m.contains_key("action"@)
                    && m.contains_key("label"@) {
                    if text_at(m, "action"@) == "add"@ {
                        Some(Change::Add(text_at(m, "label"@)))
                    } else if text_at(m, "action"@) == "remove"@ {
                        Some(Change::Remove(text_at(m, "label"@)))
                    } else {
                        None
                    }
                } else {
                    None
                },
                _ => None,
            },
            _ => None,
        },
        _ => match (e.event_type, e.data) {
            (EventType::Link, Payload::Link(d)) => if link_belongs(field, d.link_type) {
                Some(Change::Add(d.target))
            } else {
                None
            },
            (EventType::Unlink, Payload::Unlink(d)) => if d.link_type is None || link_belongs(
                field,
                d.link_type->0,
            ) {
                Some(Change::Remove(d.target))
            } else {
                None
            },
            _ => None,
        },
    }
}

/// What a change is, as plain values.
spec fn change_view(change: Option<SetChange>) -> Option<Change> {
    match change {
        Some(SetChange::Add(v)) => Some(Change::Add(v@)),
        Some(SetChange::Remove(v)) => Some(Change::Remove(v@)),
        None => None,
    }
}

fn link_type_belongs(field: OrSetField, link_type: &str) -> (r: bool)
    ensures
        r == link_belongs(field, link_type@),
{
    match field {
        OrSetField::BlockedBy => str_eq(link_type, "blocks") || str_eq(link_type, "blocked_by"),
        OrSetField::RelatedTo => str_eq(link_type, "related_to") || str_eq(link_type, "related"),
        _ => false,
    }
}

fn handle_assignee(event: &Event) -> (r: Option<SetChange>)
    ensures
        change_view(r) == change_of(event@, OrSetField::Assignees),
{
    if let EventData::Assign(data) = &event.data {
        return match data.action {
            AssignAction::Assign => Some(SetChange::Add(data.agent.clone())),
            AssignAction::Unassign => Some(SetChange::Remove(data.agent.clone())),
        };
    }
    None
}

fn handle_label(event: &Event) -> (r: Option<SetChange>)
    ensures
        change_view(r) == change_of(event@, OrSetField::Labels),
{
    if event.event_type != EventType::Update {
        return None;
    }
    let data = match &event.data {
        EventData::Update(data) => data,
        _ => return None,
    };
    if !str_eq(data.field.as_str(), "labels") {
        return None;
    }
    let obj = match data.value.as_object() {
        Some(obj) => obj,
        None => return None,
    };
    let action = match obj.get("action") {
        Some(v) => match v.as_str() {
            Some(s) => s.to_owned(),
            None => String::new(),
        },
        None => return None,
    };
    let label = match obj.get("label") {
        Some(v) => match v.as_str() {
            Some(s) => s.to_owned(),
            None => String::new(),
        },
        None => return None,
    };
    proof {
        assert(action@ =~= text_at(obj.meaning(), "action"@));
        assert(label@ =~= text_at(obj.meaning(), "label"@));
    }
    if str_eq(action.as_str(), "add") {
        Some(SetChange::Add(label))
    } else if str_eq(action.as_str(), "remove") {
        Some(SetChange::Remove(label))
    } else {
        None
    }
}

fn handle_link(event: &Event, field: OrSetField) -> (r: Option<SetChange>)
    requires
        field == OrSetField::BlockedBy || field == OrSetField::RelatedTo,
    ensures
        change_view(r) == change_of(event@, field),
{
    match event.event_type {
        EventType::Link => {
            if let EventData::Link(data) = &event.data {
                if link_type_belongs(field, data.link_type.as_str()) {
                    return Some(SetChange::Add(data.target.clone()));
                }
            }
            None
        },
        EventType::Unlink => {
            if let EventData::Unlink(data) = &event.data {
                let matches = match &data.link_type {
                    None => true,
                    Some(link_type) => link_type_belongs(field, link_type.as_str()),
                };
                if matches {
                    return Some(SetChange::Remove(data.target.clone()));
                }
            }
            None
        },
        _ => None,
    }
}

/// What an event does to a field.
fn dispatch_event(event: &Event, field: OrSetField) -> (r: Option<SetChange>)
    ensures
        change_view(r) == change_of(event@, field),
{
    match field {
        OrSetField::Assignees => handle_assignee(event),
        OrSetField::Labels => handle_label(event),
        OrSetField::BlockedBy => handle_link(event, field),
        OrSetField::RelatedTo => handle_link(event, field),
    }
}

/// Which event made a tag.
struct TagLog {
    entries: Vec<(Timestamp, String)>,
}

/// Which event made a tag, the latest entry of a tag counting.
spec fn tag_map(entries: Seq<(Timestamp, String)>) -> Map<Timestamp, Seq<char>>
    decreases entries.len(),
{
    if entries.len() == 0 {
        Map::empty()
    } else {
        tag_map(entries.drop_last()).insert(entries.last().0, entries.last().1@)
    }
}

impl TagLog {
    spec fn map(self) -> Map<Timestamp, Seq<char>> {
        tag_map(self.entries@)
    }

    fn new() -> (r: Self)
        ensures
            r.map() == Map::<Timestamp, Seq<char>>::empty(),
    {
        TagLog { entries: Vec::new() }
    }

    fn insert(&mut self, tag: Timestamp, hash: String)
        ensures
            final(self).map() == old(self).map().insert(tag, hash@),
    {
        let ghost was = self.entries@;
        self.entries.push((tag, hash));
        assert(self.entries@.drop_last() =~= was);
    }

    fn get(&self, tag: &Timestamp) -> (r: Option<&String>)
        ensures
            match r {
                Some(hash) => self.map().contains_key(*tag) && self.map()[*tag] == hash@,
                None => !self.map().contains_key(*tag),
            },
    {
        let mut i: usize = self.entries.len();
        assert(self.entries@.take(i as int) =~= self.entries@);
        while i > 0
            invariant
                i <= self.entries.len(),
                self.map().contains_key(*tag) == tag_map(self.entries@.take(i as int)).contains_key(
                    *tag,
                ),
                self.map().contains_key(*tag) ==> self.map()[*tag] == tag_map(
                    self.entries@.take(i as int),
                )[*tag],
            decreases i,
        {
            i -= 1;
            proof {
                let part = self.entries@.take(i + 1);
                assert(part.drop_last() =~= self.entries@.take(i as int));
                assert(part.last() == self.entries@[i as int]);
            }
            if self.entries[i].0 == *tag {
                return Some(&self.entries[i].1);
            }
        }
        None
    }
}

/// A set on the way through a sequence of events.
pub ghost struct Replay {
    /// The set so far.
    pub set: Tagged<Seq<char>>,
    /// Which event made a tag.
    pub made_by: Map<Timestamp, Seq<char>>,
    /// The operations so far.
    pub ops: Seq<TagOp<Seq<char>>>,
}

/// The tags of a value that an event has seen: those that no earlier event of
/// the sequence made, and those whose event comes before it in the graph. All
/// of them where no graph is given.
pub open spec fn seen_tags(
    replay: Replay,
    value: Seq<char>,
    hash: Seq<char>,
    dag: Option<Graph>,
) -> Set<Timestamp> {
    Set::new(
        |tag: Timestamp|
            replay.set.live(value, tag) && (dag is None || !replay.made_by.contains_key(tag)
                || precedes(dag->0, replay.made_by[tag], hash)),
    )
}

/// A set after one more event.
pub open spec fn after_event(
    replay: Replay,
    e: EventView,
    field: OrSetField,
    dag: Option<Graph>,
) -> Replay {
    match change_of(e, field) {
        None => replay,
        Some(Change::Add(value)) => {
            let tag = event_tag(e.wall_ts_us, e.agent, e.event_hash);
            Replay {
                set: replay.set.added(value, tag),
                made_by: replay.made_by.insert(tag, e.event_hash),
                ops: replay.ops.push(TagOp::Add(value, tag)),
            }
        },
        Some(Change::Remove(value)) => {
            let tags = seen_tags(replay, value, e.event_hash, dag);
            Replay {
                set: replay.set.removed(value, tags),
                ops: replay.ops.push(TagOp::Remove(value, tags)),
                ..replay
            }
        },
    }
}

/// A set after a sequence of events.
pub open spec fn after_events(
    base: Tagged<Seq<char>>,
    events: Seq<EventView>,
    field: OrSetField,
    dag: Option<Graph>,
) -> Replay
    decreases events.len(),
{
    if events.len() == 0 {
        Replay { set: base, made_by: Map::empty(), ops: Seq::empty() }
    } else {
        after_event(after_events(base, events.drop_last(), field, dag), events.last(), field, dag)
    }
}

/// Operations as the set sees them.
pub open spec fn op_views(ops: Seq<OrSetOp<String>>) -> Seq<TagOp<Seq<char>>> {
    ops.map_values(|op: OrSetOp<String>| op@)
}

/// What an optional set holds, nothing where there is none.
pub open spec fn base_view(base: Option<&OrSet<String>>) -> Tagged<Seq<char>> {
    match base {
        Some(set) => set@,
        None => Tagged::empty(),
    }
}

/// What an optional graph holds.
pub open spec fn dag_view(dag: Option<&EventDag>) -> Option<Graph> {
    match dag {
        Some(dag) => Some(dag@),
        None => None,
    }
}

/// The candidates that an event has seen.
fn visible_tags(
    candidates: Vec<Timestamp>,
    event: &Event,
    dag: Option<&EventDag>,
    made_by: &TagLog,
) -> (r: Vec<Timestamp>)
    ensures
        forall|tag: Timestamp|
            #![trigger r@.contains(tag)]
            r@.contains(tag) <==> candidates@.contains(tag) && (dag is None
                || !made_by.map().contains_key(tag) || precedes(
                dag->0@,
                made_by.map()[tag],
                event@.event_hash,
            )),
{
    let mut r: Vec<Timestamp> = Vec::new();
    let mut i: usize = 0;
    while i < candidates.len()
        invariant
            i <= candidates.len(),
            forall|tag: Timestamp|
                #![trigger r@.contains(tag)]
                r@.contains(tag) <==> candidates@.take(i as int).contains(tag) && (dag is None
                    || !made_by.map().contains_key(tag) || precedes(
                    dag->0@,
                    made_by.map()[tag],
                    event@.event_hash,
                )),
        decreases candidates.len() - i,
    {
        let tag = candidates[i];
        let visible = match dag {
            None => true,
            Some(dag) => match made_by.get(&tag) {
                None => true,
                Some(hash) => dag.is_ancestor(hash.as_str(), event.event_hash.as_str()),
            },
        };
        let ghost was = r@;
        if visible {
            r.push(tag);
        }
        proof {
            let part = candidates@.take(i as int);
            let next = candidates@.take(i + 1);
            assert(next =~= part.push(tag));
            assert forall|t: Timestamp|
                #![trigger r@.contains(t)]
                r@.contains(t) <==> next.contains(t) && (dag is None
                    || !made_by.map().contains_key(t) || precedes(
                    dag->0@,
                    made_by.map()[t],
                    event@.event_hash,
                )) by {
                lemma_push_contains(part, tag, t);
                lemma_push_contains(was, tag, t);
                assert(was.contains(t) <==> part.contains(t) && (dag is None
                    || !made_by.map().contains_key(t) || precedes(
                    dag->0@,
                    made_by.map()[t],
                    event@.event_hash,
                )));
            }
        }
        i += 1;
    }
    assert(candidates@.take(i as int) =~= candidates@);
    r
}

/// Translates events into the operations that they perform on a field.
///
/// The set starts as `base_state`, whose tags every event has seen. With a
/// graph, a remove only names tags of events that come before it, so that an
/// add on another branch survives.
pub fn ops_from_events(
    events: &[Event],
    field: &OrSetField,
    base_state: Option<&OrSet<String>>,
    dag: Option<&EventDag>,
) -> (r: Vec<OrSetOp<String>>)
    requires
        forall|i: int| 0 <= i < events@.len() ==> timed((#[trigger] events@[i])@.wall_ts_us),
    ensures
        op_views(r@) == after_events(
            base_view(base_state),
            event_views(events@),
            *field,
            dag_view(dag),
        ).ops,
{
    let mut current: OrSet<String> = match base_state {
        Some(set) => set.clone(),
        None => OrSet::new(),
    };
    let mut made_by = TagLog::new();
    let mut ops: Vec<OrSetOp<String>> = Vec::new();
    let ghost base = base_view(base_state);
    let ghost all = event_views(events@);
    let ghost g = dag_view(dag);
    let mut i: usize = 0;
    proof {
        assert(all.take(0) =~= Seq::empty());
        assert(op_views(ops@) =~= Seq::empty());
    }
    while i < events.len()
        invariant
            i <= events.len(),
            all == event_views(events@),
            g == dag_view(dag),
            forall|k: int| 0 <= k < events@.len() ==> timed((#[trigger] events@[k])@.wall_ts_us),
            after_events(base, all.take(i as int), *field, g) == (Replay {
                set: current@,
                made_by: made_by.map(),
                ops: op_views(ops@),
            }),
        decreases events.len() - i,
    {
        let event = &events[i];
        let ghost before = Replay { set: current@, made_by: made_by.map(), ops: op_views(ops@) };
        let ghost was = ops@;
        proof {
            assert(all.take(i + 1).drop_last() =~= all.take(i as int));
            assert(all.take(i + 1).last() == event@);
            assert(timed(events@[i as int]@.wall_ts_us));
        }
        match dispatch_event(event, *field) {
            None => {},
            Some(SetChange::Add(value)) => {
                let tag = tag_for_event(
                    event.wall_ts_us,
                    event.agent.as_str(),
                    event.event_hash.as_str(),
                );
                current.add(value.clone(), tag);
                made_by.insert(tag, event.event_hash.clone());
                ops.push(OrSetOp::Add(value, tag));
                assert(op_views(ops@) =~= op_views(was).push(TagOp::Add(value@, tag)));
            },
            Some(SetChange::Remove(value)) => {
                let candidates = current.active_tags(&value);
                let observed = visible_tags(candidates, event, dag, &made_by);
                current.remove_specific(&value, observed.as_slice());
                proof {
                    let tags = seen_tags(before, value@, event@.event_hash, g);
                    assert forall|t: Timestamp| #[trigger] observed@.to_set().contains(t)
                        == tags.contains(t) by {
                        assert(observed@.to_set().contains(t) == observed@.contains(t));
                        assert(candidates@.to_set().contains(t) == candidates@.contains(t));
                        assert(before.set.live_tags(value@).contains(t) == before.set.live(
                            value@,
                            t,
                        ));
                    }
                    assert(observed@.to_set() =~= tags);
                }
                let ghost tags = observed@.to_set();
                ops.push(OrSetOp::Remove(value, observed));
                assert(op_views(ops@) =~= op_views(was).push(TagOp::Remove(value@, tags)));
            },
        }
        i += 1;
    }
    assert(all.take(i as int) =~= all);
    ops
}

/// Applies operations one after the other.
fn apply_all(set: OrSet<String>, ops: Vec<OrSetOp<String>>) -> (r: OrSet<String>)
    ensures
        r@ == set@.replayed(op_views(ops@)),
{
    let mut r = set;
    let ghost all = op_views(ops@);
    let mut i: usize = 0;
    assert(all.take(0) =~= Seq::empty());
    while i < ops.len()
        invariant
            i <= ops.len(),
            all == op_views(ops@),
            r@ == set@.replayed(all.take(i as int)),
        decreases ops.len() - i,
    {
        proof {
            assert(all.take(i + 1).drop_last() =~= all.take(i as int));
            assert(all.take(i + 1).last() == ops@[i as int]@);
        }
        r.apply_ref(&ops[i]);
        i += 1;
    }
    assert(all.take(i as int) =~= all);
    r
}

/// Builds a set from events, in the order given.
#[must_use]
pub fn materialize_from_events(events: &[Event], field: &OrSetField) -> (r: OrSet<String>)
    requires
        forall|i: int| 0 <= i < events@.len() ==> timed((#[trigger] events@[i])@.wall_ts_us),
    ensures
        r@ == after_events(Tagged::empty(), event_views(events@), *field, None).set,
{
    let ops = ops_from_events(events, field, None, None);
    proof {
        replayed_ops_give_the_set(Tagged::empty(), event_views(events@), *field, None);
    }
    apply_all(OrSet::new(), ops)
}

/// Applies the merged events of a replay to the set that the branches started
/// from.
#[must_use]
pub fn apply_replay(
    base_state: &OrSet<String>,
    replay: &DivergentReplay,
    field: &OrSetField,
    dag: Option<&EventDag>,
) -> (r: OrSet<String>)
    requires
        forall|i: int|
            0 <= i < replay.merged@.len() ==> timed((#[trigger] replay.merged@[i])@.wall_ts_us),
    ensures
        r@ == after_events(
            base_state@,
            event_views(replay.merged@),
            *field,
            dag_view(dag),
        ).set,
{
    let ops = ops_from_events(replay.merged.as_slice(), field, Some(base_state), dag);
    proof {
        replayed_ops_give_the_set(
            base_state@,
            event_views(replay.merged@),
            *field,
            dag_view(dag),
        );
    }
    apply_all(base_state.clone(), ops)
}

/// Builds the set that two branches have after a merge, from the set at the
/// event where they parted.
///
/// An add on one branch wins over a remove on the other: the remove has not
/// seen the tag of the add.
pub fn materialize_from_replay(
    dag: &EventDag,
    tip_a: &str,
    tip_b: &str,
    base_state: &OrSet<String>,
    field: &OrSetField,
) -> (r: Result<OrSet<String>, ReplayError>)
    requires
        forall|lca: Seq<char>, h: Seq<char>|
            #[trigger] found(dag@, tip_a@, tip_b@, lca) && #[trigger] since(
                dag@,
                lca,
                tip_a@,
            ).union(since(dag@, lca, tip_b@)).contains(h) ==> timed(dag@[h].wall_ts_us),
    ensures
        match r {
            Ok(set) => {
                &&& absent(dag@, tip_a@, tip_b@) is None
                &&& exists|lca: Seq<char>, a: Seq<EventView>, b: Seq<EventView>, merged: Seq<EventView>|
                    #![trigger replays(dag@, tip_a@, tip_b@, lca, a, b, merged)]
                    found(dag@, tip_a@, tip_b@, lca) && replays(
                        dag@,
                        tip_a@,
                        tip_b@,
                        lca,
                        a,
                        b,
                        merged,
                    ) && set@ == after_events(base_state@, merged, *field, Some(dag@)).set
            },
            Err(ReplayError::Lca(LcaError::EventNotFound(h))) => absent(dag@, tip_a@, tip_b@)
                == Some(h@),
            Err(ReplayError::NoDivergence) => absent(dag@, tip_a@, tip_b@) is None && forall|
                x: Seq<char>,
            |
                !#[trigger] common(dag@, tip_a@, tip_b@, x),
        },
{
    let replay = match replay_divergent(dag, tip_a, tip_b) {
        Ok(replay) => replay,
        Err(e) => return Err(e),
    };
    proof {
        let merged = event_views(replay.merged@);
        assert forall|i: int| 0 <= i < replay.merged@.len() implies timed(
            (#[trigger] replay.merged@[i])@.wall_ts_us,
        ) by {
            assert(merged[i] == replay.merged@[i]@);
            assert(since(dag@, replay.lca@, tip_a@).union(
                since(dag@, replay.lca@, tip_b@),
            ).contains(merged[i].event_hash));
            assert(dag@.contains_key(merged[i].event_hash));
        }
    }
    Ok(apply_replay(base_state, &replay, field, Some(dag)))
}

/// The operations that events perform, applied to the set that they started
/// from, give the set after the events.
pub proof fn replayed_ops_give_the_set(
    base: Tagged<Seq<char>>,
    events: Seq<EventView>,
    field: OrSetField,
    dag: Option<Graph>,
)
    ensures
        base.replayed(after_events(base, events, field, dag).ops) == after_events(
            base,
            events,
            field,
            dag,
        ).set,
    decreases events.len(),
{
    if events.len() > 0 {
        let before = after_events(base, events.drop_last(), field, dag);
        let after = after_events(base, events, field, dag);
        replayed_ops_give_the_set(base, events.drop_last(), field, dag);
        if after.ops != before.ops {
            assert(after.ops.drop_last() =~= before.ops);
        }
    }
}

/// A remove leaves the tags alone that events not before it have made.
pub proof fn remove_spares_concurrent_adds(
    replay: Replay,
    e: EventView,
    field: OrSetField,
    g: Graph,
    value: Seq<char>,
    tag: Timestamp,
)
    requires
        change_of(e, field) == Some(Change::Remove(value)),
        replay.set.live(value, tag),
        replay.made_by.contains_key(tag),
        !precedes(g, replay.made_by[tag], e.event_hash),
    ensures
        after_event(replay, e, field, Some(g)).set.live(value, tag),
        after_event(replay, e, field, Some(g)).set.has(value),
{
    let after = after_event(replay, e, field, Some(g)).set;
    assert(!seen_tags(replay, value, e.event_hash, Some(g)).contains(tag));
    assert(after.live(value, tag));
}

}
