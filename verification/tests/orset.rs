use bones_core::clock::wall::WallTime;
use bones_core::crdt::merge::Merge;
use bones_core::crdt::orset::{ops_from_events, OrSetField, OrSetOp};
use bones_core::crdt::{OrSet, Timestamp};
use bones_core::dag::graph::EventDag;
use bones_core::event::data::{AssignAction, AssignData, EventData};
use bones_core::event::json::JsonMap;
use bones_core::event::types::EventType;
use bones_core::event::Event;

fn make_tag(wall_secs: i64, actor: u64, event_hash: u64) -> Timestamp {
    Timestamp {
        wall: WallTime { secs: wall_secs, nanos: 0 },
        actor,
        event_hash,
        itc: wall_secs as u64,
    }
}

// ===================================================================
// Basic operations
// ===================================================================

#[test]
fn new_orset_is_empty() {
    let set: OrSet<String> = OrSet::new();
    assert!(set.is_empty());
    assert_eq!(set.len(), 0);
    assert!(set.values().is_empty());
}

#[test]
fn add_single_element() {
    let mut set: OrSet<String> = OrSet::new();
    let tag = make_tag(1, 1, 100);
    set.add("alice".into(), tag);

    assert!(set.contains(&"alice".into()));
    assert!(!set.contains(&"bob".into()));
    assert_eq!(set.len(), 1);
}

#[test]
fn add_multiple_elements() {
    let mut set: OrSet<String> = OrSet::new();
    set.add("alice".into(), make_tag(1, 1, 100));
    set.add("bob".into(), make_tag(2, 1, 101));
    set.add("charlie".into(), make_tag(3, 1, 102));

    assert_eq!(set.len(), 3);
    assert!(set.contains(&"alice".into()));
    assert!(set.contains(&"bob".into()));
    assert!(set.contains(&"charlie".into()));
}

#[test]
fn add_same_element_twice_with_different_tags() {
    let mut set: OrSet<String> = OrSet::new();
    set.add("alice".into(), make_tag(1, 1, 100));
    set.add("alice".into(), make_tag(2, 2, 101));

    // Still one distinct value, but two tags.
    assert_eq!(set.len(), 1);
    assert!(set.contains(&"alice".into()));
    assert_eq!(set.active_tags(&"alice".into()).len(), 2);
}

#[test]
fn remove_element() {
    let mut set: OrSet<String> = OrSet::new();
    set.add("alice".into(), make_tag(1, 1, 100));
    assert!(set.contains(&"alice".into()));

    let removed = set.remove(&"alice".into());
    assert_eq!(removed.len(), 1);
    assert!(!set.contains(&"alice".into()));
    assert!(set.is_empty());
}

#[test]
fn remove_nonexistent_element() {
    let mut set: OrSet<String> = OrSet::new();
    let removed = set.remove(&"alice".into());
    assert!(removed.is_empty());
    assert!(set.is_empty());
}

#[test]
fn add_remove_add_cycle() {
    let mut set: OrSet<String> = OrSet::new();

    // First add
    set.add("alice".into(), make_tag(1, 1, 100));
    assert!(set.contains(&"alice".into()));

    // Remove
    set.remove(&"alice".into());
    assert!(!set.contains(&"alice".into()));

    // Re-add with new tag
    set.add("alice".into(), make_tag(3, 1, 102));
    assert!(set.contains(&"alice".into()));
    assert_eq!(set.active_tags(&"alice".into()).len(), 1);
}

#[test]
fn multiple_add_remove_cycles() {
    let mut set: OrSet<String> = OrSet::new();

    for i in 0..5 {
        set.add("x".into(), make_tag(i * 2, 1, (i * 2) as u64));
        assert!(set.contains(&"x".into()));
        set.remove(&"x".into());
        assert!(!set.contains(&"x".into()));
    }

    // Final add
    set.add("x".into(), make_tag(100, 1, 999));
    assert!(set.contains(&"x".into()));
    assert_eq!(set.len(), 1);
}

// ===================================================================
// Concurrent add+remove (add-wins)
// ===================================================================

#[test]
fn concurrent_add_remove_add_wins() {
    // Simulate: base has element "x". Agent A removes "x", Agent B
    // concurrently adds "x" (with a new tag). After merge, "x" should
    // be present (add-wins).

    // Base state: "x" with tag1
    let tag1 = make_tag(1, 1, 100);
    let mut base: OrSet<String> = OrSet::new();
    base.add("x".into(), tag1.clone());

    // Agent A: removes "x" (observes tag1)
    let mut agent_a = base.clone();
    agent_a.remove(&"x".into());
    assert!(!agent_a.contains(&"x".into()));

    // Agent B: adds "x" with new tag (concurrent, doesn't see remove)
    let mut agent_b = base.clone();
    let tag2 = make_tag(2, 2, 200);
    agent_b.add("x".into(), tag2.clone());

    // Merge A into B
    let mut merged_ab = agent_a.clone();
    merged_ab.merge(agent_b.clone());
    assert!(
        merged_ab.contains(&"x".into()),
        "add-wins: concurrent add should survive remove"
    );

    // Merge B into A (commutativity check)
    let mut merged_ba = agent_b.clone();
    merged_ba.merge(agent_a.clone());
    assert!(
        merged_ba.contains(&"x".into()),
        "add-wins: merge must be commutative"
    );
}

#[test]
fn concurrent_adds_both_present() {
    // Two agents concurrently add "x" with different tags.
    let mut agent_a: OrSet<String> = OrSet::new();
    agent_a.add("x".into(), make_tag(1, 1, 100));

    let mut agent_b: OrSet<String> = OrSet::new();
    agent_b.add("x".into(), make_tag(1, 2, 200));

    let mut merged = agent_a.clone();
    merged.merge(agent_b);

    assert!(merged.contains(&"x".into()));
    // Should have 2 tags for "x"
    assert_eq!(merged.active_tags(&"x".into()).len(), 2);
}

#[test]
fn causal_remove_after_add_element_absent() {
    // Agent A adds "x", then causally removes it. Result: absent.
    let mut set: OrSet<String> = OrSet::new();
    set.add("x".into(), make_tag(1, 1, 100));
    set.remove(&"x".into());

    assert!(!set.contains(&"x".into()));
}

// ===================================================================
// Merge semilattice properties
// ===================================================================

#[test]
fn orset_merge_commutative() {
    let mut a: OrSet<u32> = OrSet::new();
    a.add(1, make_tag(1, 1, 100));
    a.add(2, make_tag(2, 1, 101));

    let mut b: OrSet<u32> = OrSet::new();
    b.add(2, make_tag(3, 2, 200));
    b.add(3, make_tag(4, 2, 201));

    let mut ab = a.clone();
    ab.merge(b.clone());

    let mut ba = b.clone();
    ba.merge(a.clone());

    assert_eq!(ab, ba);
}

#[test]
fn orset_merge_associative() {
    let mut a: OrSet<u32> = OrSet::new();
    a.add(1, make_tag(1, 1, 100));

    let mut b: OrSet<u32> = OrSet::new();
    b.add(2, make_tag(2, 2, 200));

    let mut c: OrSet<u32> = OrSet::new();
    c.add(3, make_tag(3, 3, 300));

    // (a ⊔ b) ⊔ c
    let mut ab_c = a.clone();
    ab_c.merge(b.clone());
    ab_c.merge(c.clone());

    // a ⊔ (b ⊔ c)
    let mut bc = b.clone();
    bc.merge(c.clone());
    let mut a_bc = a.clone();
    a_bc.merge(bc);

    assert_eq!(ab_c, a_bc);
}

#[test]
fn orset_merge_idempotent() {
    let mut a: OrSet<u32> = OrSet::new();
    a.add(1, make_tag(1, 1, 100));
    a.add(2, make_tag(2, 1, 101));
    a.remove(&1);

    let before = a.clone();
    a.merge(before.clone());
    assert_eq!(a, before);
}

#[test]
fn merge_empty_sets() {
    let a: OrSet<String> = OrSet::new();
    let b: OrSet<String> = OrSet::new();

    let mut merged = a.clone();
    merged.merge(b);

    assert!(merged.is_empty());
}

#[test]
fn merge_with_empty_is_identity() {
    let mut a: OrSet<u32> = OrSet::new();
    a.add(1, make_tag(1, 1, 100));
    a.add(2, make_tag(2, 1, 101));

    let before = a.clone();
    a.merge(OrSet::new());
    assert_eq!(a, before);
}

// ===================================================================
// Complex scenarios
// ===================================================================

#[test]
fn three_way_concurrent_add_remove() {
    // Base: {x(tag1)}
    let tag1 = make_tag(1, 0, 1);
    let mut base: OrSet<String> = OrSet::new();
    base.add("x".into(), tag1.clone());

    // Agent A: removes x
    let mut a = base.clone();
    a.remove(&"x".into());

    // Agent B: adds x with new tag
    let mut b = base.clone();
    b.add("x".into(), make_tag(2, 2, 200));

    // Agent C: removes x
    let mut c = base.clone();
    c.remove(&"x".into());

    // Merge all three
    let mut result = a.clone();
    result.merge(b.clone());
    result.merge(c.clone());

    // Agent B's add should survive both removes
    assert!(
        result.contains(&"x".into()),
        "B's concurrent add should win over A and C's removes"
    );
}

#[test]
fn remove_then_concurrent_re_adds() {
    // Base: {x(tag1)}
    let tag1 = make_tag(1, 0, 1);
    let mut base: OrSet<String> = OrSet::new();
    base.add("x".into(), tag1.clone());

    // Agent A: removes x, then adds x with new tag
    let mut a = base.clone();
    a.remove(&"x".into());
    a.add("x".into(), make_tag(3, 1, 300));

    // Agent B: also removes x, then adds x with different new tag
    let mut b = base.clone();
    b.remove(&"x".into());
    b.add("x".into(), make_tag(4, 2, 400));

    let mut merged = a.clone();
    merged.merge(b.clone());

    // Both new adds should survive
    assert!(merged.contains(&"x".into()));
    assert_eq!(merged.active_tags(&"x".into()).len(), 2);
}

#[test]
fn mixed_elements_concurrent_ops() {
    // Base: {a(t1), b(t2)}
    let mut base: OrSet<String> = OrSet::new();
    base.add("a".into(), make_tag(1, 0, 1));
    base.add("b".into(), make_tag(2, 0, 2));

    // Agent 1: remove a, add c
    let mut s1 = base.clone();
    s1.remove(&"a".into());
    s1.add("c".into(), make_tag(3, 1, 100));

    // Agent 2: remove b, add d
    let mut s2 = base.clone();
    s2.remove(&"b".into());
    s2.add("d".into(), make_tag(4, 2, 200));

    let mut merged = s1.clone();
    merged.merge(s2);

    // a removed by agent 1 only (agent 2 didn't remove it,
    // but agent 2 kept original tag which IS tombstoned by agent 1)
    // Agent 2 starts from base which has a(t1). Agent 2
    // doesn't touch a, so a(t1) stays in agent 2's elements.
    // Agent 1 tombstones a(t1). After merge, a(t1) is tombstoned.
    // So a is NOT present.
    assert!(!merged.contains(&"a".into()));

    // b removed by agent 2 only. Agent 1 keeps b(t2). Agent 2
    // tombstones b(t2). After merge, b(t2) is tombstoned.
    assert!(!merged.contains(&"b".into()));

    // c added by agent 1, d added by agent 2
    assert!(merged.contains(&"c".into()));
    assert!(merged.contains(&"d".into()));
}

// ===================================================================
// Apply operations
// ===================================================================

#[test]
fn apply_add_op() {
    let mut set: OrSet<String> = OrSet::new();
    let tag = make_tag(1, 1, 100);
    set.apply(OrSetOp::Add("alice".into(), tag));

    assert!(set.contains(&"alice".into()));
}

#[test]
fn apply_remove_op_with_observed_tags() {
    let mut set: OrSet<String> = OrSet::new();
    let tag = make_tag(1, 1, 100);
    set.add("alice".into(), tag.clone());

    // Remove by specifying observed tags
    set.apply(OrSetOp::Remove("alice".into(), vec![tag]));
    assert!(!set.contains(&"alice".into()));
}

#[test]
fn apply_remove_with_unobserved_tag_survives() {
    let mut set: OrSet<String> = OrSet::new();
    let tag1 = make_tag(1, 1, 100);
    let tag2 = make_tag(2, 2, 200);
    set.add("alice".into(), tag1.clone());
    set.add("alice".into(), tag2.clone());

    // Remove only observing tag1
    set.apply(OrSetOp::Remove("alice".into(), vec![tag1]));

    // tag2 survives
    assert!(set.contains(&"alice".into()));
    assert_eq!(set.active_tags(&"alice".into()).len(), 1);
}

// ===================================================================
// Values method
// ===================================================================

#[test]
fn values_returns_distinct_present_elements() {
    let mut set: OrSet<String> = OrSet::new();
    set.add("a".into(), make_tag(1, 1, 100));
    set.add("b".into(), make_tag(2, 1, 101));
    set.add("c".into(), make_tag(3, 1, 102));
    set.remove(&"b".into());

    let vals = set.values();
    assert_eq!(vals.len(), 2);
    assert!(vals.contains(&"a".to_string()));
    assert!(vals.contains(&"c".to_string()));
    assert!(!vals.contains(&"b".to_string()));
}

// ===================================================================
// Operations from events
// ===================================================================

#[test]
fn remove_base_state_item_succeeds() {
    // Scenario: Item added in base state, then removed in a divergent event.

    let base_tag = make_tag(1, 1, 100);
    let mut base_state: OrSet<String> = OrSet::new();
    base_state.add("alice".into(), base_tag.clone());

    // Event: Unassign alice (Unlink/Remove)
    let event = Event {
        wall_ts_us: 2000,
        agent: "agent".into(),
        itc: "itc".into(),
        parents: vec![],
        event_type: EventType::Assign,
        item_id: bones_core::model::item_id::ItemId::new_unchecked("bn-test"),
        data: EventData::Assign(AssignData {
            agent: "alice".into(),
            action: AssignAction::Unassign,
            extra: JsonMap::new(),
        }),
        event_hash: "hash".into(),
    };

    // Pass base_state so it knows what to remove.
    let ops = ops_from_events(&[event], &OrSetField::Assignees, Some(&base_state), None);

    // Apply ops to base state
    let mut result = base_state.clone();
    for op in ops {
        result.apply(op);
    }

    // Alice should be removed
    assert!(
        !result.contains(&"alice".into()),
        "Alice should be removed when base_state is provided"
    );
}

#[test]
fn concurrent_remove_respects_dag_visibility() {
    // Scenario: Concurrent Add(A) and Remove(A).
    // Remove(A) does NOT see Add(A).
    // Result: A should remain present (Add wins).

    let root_hash = "root";
    let add_hash = "add_hash";
    let remove_hash = "remove_hash";

    // DAG: root -> add, root -> remove
    let mut dag = EventDag::new();
    // We mock the DAG structure without full events for the DAG check
    // insert() requires full Event, so we construct minimal events.

    let make_evt = |hash: &str, parents: Vec<&str>| Event {
        wall_ts_us: 0,
        agent: "a".into(),
        itc: "i".into(),
        parents: parents.iter().map(|s| s.to_string()).collect(),
        event_type: EventType::Create, // dummy
        item_id: bones_core::model::item_id::ItemId::new_unchecked("bn"),
        data: EventData::Create(bones_core::event::data::CreateData {
            title: "".into(),
            kind: bones_core::model::item::Kind::Task,
            size: None,
            urgency: bones_core::model::item::Urgency::Default,
            labels: vec![],
            parent: None,
            causation: None,
            description: None,
            extra: JsonMap::new(),
        }),
        event_hash: hash.into(),
    };

    dag.insert(make_evt(root_hash, vec![]));
    dag.insert(make_evt(add_hash, vec![root_hash]));
    dag.insert(make_evt(remove_hash, vec![root_hash]));

    // Events for ops_from_events
    // 1. Add "alice"
    let add_event = Event {
        wall_ts_us: 1000,
        agent: "alice".into(),
        itc: "1".into(),
        parents: vec![root_hash.into()],
        event_type: EventType::Assign,
        item_id: bones_core::model::item_id::ItemId::new_unchecked("bn"),
        data: EventData::Assign(AssignData {
            agent: "alice".into(),
            action: AssignAction::Assign,
            extra: JsonMap::new(),
        }),
        event_hash: add_hash.into(),
    };

    // 2. Remove "alice" (concurrent)
    let remove_event = Event {
        wall_ts_us: 2000,
        agent: "bob".into(),
        itc: "2".into(),
        parents: vec![root_hash.into()],
        event_type: EventType::Assign,
        item_id: bones_core::model::item_id::ItemId::new_unchecked("bn"),
        data: EventData::Assign(AssignData {
            agent: "alice".into(),
            action: AssignAction::Unassign,
            extra: JsonMap::new(),
        }),
        event_hash: remove_hash.into(),
    };

    // Replay order: Add then Remove (linearized)
    let events = vec![add_event, remove_event];

    let ops = ops_from_events(
        &events,
        &OrSetField::Assignees,
        None, // empty base
        Some(&dag),
    );

    let mut set = OrSet::new();
    for op in ops {
        set.apply(op);
    }

    // Alice should be present because Remove didn't see Add
    assert!(
        set.contains(&"alice".into()),
        "Concurrent Add should survive Remove"
    );
}
