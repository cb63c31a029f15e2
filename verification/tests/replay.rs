use bones_core::dag::graph::EventDag;
use bones_core::dag::lca::LcaError;
use bones_core::dag::replay::{replay_divergent, replay_divergent_for_item, ReplayError};
use bones_core::event::canonical::parse_json;
use bones_core::event::data::{CreateData, EventData, MoveData, UpdateData};
use bones_core::event::json::{JsonMap, JsonValue};
use bones_core::event::types::EventType;
use bones_core::event::writer::write_event;
use bones_core::event::Event;
use bones_core::model::item::{Kind, State, Urgency};
use bones_core::model::item_id::ItemId;

fn json_value(text: &str) -> JsonValue {
    parse_json(text).expect("test JSON")
}

// -------------------------------------------------------------------
// Helpers
// -------------------------------------------------------------------

fn make_root(ts: i64, agent: &str) -> Event {
    let mut event = Event {
        wall_ts_us: ts,
        agent: agent.into(),
        itc: "itc:AQ".into(),
        parents: vec![],
        event_type: EventType::Create,
        item_id: ItemId::new_unchecked("bn-test"),
        data: EventData::Create(CreateData {
            title: format!("Root by {agent}"),
            kind: Kind::Task,
            size: None,
            urgency: Urgency::Default,
            labels: vec![],
            parent: None,
            causation: None,
            description: None,
            extra: JsonMap::new(),
        }),
        event_hash: String::new(),
    };
    write_event(&mut event).unwrap();
    event
}

fn make_child(ts: i64, parents: &[&str], agent: &str) -> Event {
    let mut event = Event {
        wall_ts_us: ts,
        agent: agent.into(),
        itc: format!("itc:AQ.{ts}"),
        parents: parents.iter().map(|s| (*s).to_string()).collect(),
        event_type: EventType::Move,
        item_id: ItemId::new_unchecked("bn-test"),
        data: EventData::Move(MoveData {
            state: State::Doing,
            reason: None,
            extra: JsonMap::new(),
        }),
        event_hash: String::new(),
    };
    write_event(&mut event).unwrap();
    event
}

fn make_update(ts: i64, parents: &[&str], field: &str, agent: &str) -> Event {
    let mut event = Event {
        wall_ts_us: ts,
        agent: agent.into(),
        itc: format!("itc:AQ.{ts}"),
        parents: parents.iter().map(|s| (*s).to_string()).collect(),
        event_type: EventType::Update,
        item_id: ItemId::new_unchecked("bn-test"),
        data: EventData::Update(UpdateData {
            field: field.into(),
            value: json_value(r#""new-value""#),
            extra: JsonMap::new(),
        }),
        event_hash: String::new(),
    };
    write_event(&mut event).unwrap();
    event
}

fn make_event_for_item(ts: i64, parents: &[&str], agent: &str, item: &str) -> Event {
    let mut event = Event {
        wall_ts_us: ts,
        agent: agent.into(),
        itc: format!("itc:AQ.{ts}"),
        parents: parents.iter().map(|s| (*s).to_string()).collect(),
        event_type: EventType::Update,
        item_id: ItemId::new_unchecked(item),
        data: EventData::Update(UpdateData {
            field: "title".into(),
            value: json_value(r#""updated""#),
            extra: JsonMap::new(),
        }),
        event_hash: String::new(),
    };
    write_event(&mut event).unwrap();
    event
}

// ===================================================================
// replay_divergent tests
// ===================================================================

#[test]
fn replay_same_tip_returns_empty() {
    let root = make_root(1_000, "agent-a");
    let dag = EventDag::from_events(&[root.clone()]);

    let replay = replay_divergent(&dag, &root.event_hash, &root.event_hash).unwrap();
    assert_eq!(replay.lca, root.event_hash);
    assert!(replay.branch_a.is_empty());
    assert!(replay.branch_b.is_empty());
    assert!(replay.merged.is_empty());
}

#[test]
fn replay_one_ancestor_of_other() {
    // root → child
    // LCA(root, child) = root
    // Only child is on the longer branch
    let root = make_root(1_000, "agent-a");
    let child = make_child(2_000, &[&root.event_hash], "agent-a");
    let dag = EventDag::from_events(&[root.clone(), child.clone()]);

    let replay = replay_divergent(&dag, &root.event_hash, &child.event_hash).unwrap();
    assert_eq!(replay.lca, root.event_hash);
    assert!(replay.branch_a.is_empty()); // root is the LCA, no events past it on branch A
    assert_eq!(replay.branch_b.len(), 1);
    assert_eq!(replay.branch_b[0].event_hash, child.event_hash);
    assert_eq!(replay.merged.len(), 1);
}

#[test]
fn replay_simple_fork() {
    //      root
    //     /    \
    //   left   right
    let root = make_root(1_000, "agent-a");
    let left = make_update(2_000, &[&root.event_hash], "title", "agent-a");
    let right = make_update(2_100, &[&root.event_hash], "priority", "agent-b");
    let dag = EventDag::from_events(&[root.clone(), left.clone(), right.clone()]);

    let replay = replay_divergent(&dag, &left.event_hash, &right.event_hash).unwrap();
    assert_eq!(replay.lca, root.event_hash);
    assert_eq!(replay.branch_a.len(), 1);
    assert_eq!(replay.branch_a[0].event_hash, left.event_hash);
    assert_eq!(replay.branch_b.len(), 1);
    assert_eq!(replay.branch_b[0].event_hash, right.event_hash);
    assert_eq!(replay.merged.len(), 2);
}

#[test]
fn replay_deep_branches() {
    //  root → a → b → left1 → left2
    //                \→ right1 → right2
    let root = make_root(1_000, "agent-a");
    let a = make_child(2_000, &[&root.event_hash], "agent-a");
    let b = make_child(3_000, &[&a.event_hash], "agent-a");
    let left1 = make_update(4_000, &[&b.event_hash], "title", "agent-a");
    let left2 = make_update(5_000, &[&left1.event_hash], "desc", "agent-a");
    let right1 = make_update(4_100, &[&b.event_hash], "priority", "agent-b");
    let right2 = make_update(5_100, &[&right1.event_hash], "size", "agent-b");

    let dag = EventDag::from_events(&[
        root.clone(),
        a.clone(),
        b.clone(),
        left1.clone(),
        left2.clone(),
        right1.clone(),
        right2.clone(),
    ]);

    let replay = replay_divergent(&dag, &left2.event_hash, &right2.event_hash).unwrap();
    assert_eq!(replay.lca, b.event_hash);
    assert_eq!(replay.branch_a.len(), 2); // left1, left2
    assert_eq!(replay.branch_b.len(), 2); // right1, right2
    assert_eq!(replay.merged.len(), 4); // all 4 divergent events
}

#[test]
fn replay_merged_events_sorted_deterministically() {
    let root = make_root(1_000, "agent-a");
    let left = make_update(3_000, &[&root.event_hash], "title", "agent-b"); // later ts, agent-b
    let right = make_update(2_000, &[&root.event_hash], "priority", "agent-a"); // earlier ts, agent-a
    let dag = EventDag::from_events(&[root.clone(), left.clone(), right.clone()]);

    let replay = replay_divergent(&dag, &left.event_hash, &right.event_hash).unwrap();
    assert_eq!(replay.merged.len(), 2);
    // Should be sorted by ts: right (2_000) before left (3_000)
    assert_eq!(replay.merged[0].wall_ts_us, 2_000);
    assert_eq!(replay.merged[1].wall_ts_us, 3_000);
}

#[test]
fn replay_symmetric() {
    let root = make_root(1_000, "agent-a");
    let left = make_update(2_000, &[&root.event_hash], "title", "agent-a");
    let right = make_update(2_100, &[&root.event_hash], "priority", "agent-b");
    let dag = EventDag::from_events(&[root.clone(), left.clone(), right.clone()]);

    let replay_ab = replay_divergent(&dag, &left.event_hash, &right.event_hash).unwrap();
    let replay_ba = replay_divergent(&dag, &right.event_hash, &left.event_hash).unwrap();

    // Merged should be identical (deterministic sort).
    let hashes_ab: Vec<&str> = replay_ab
        .merged
        .iter()
        .map(|e| e.event_hash.as_str())
        .collect();
    let hashes_ba: Vec<&str> = replay_ba
        .merged
        .iter()
        .map(|e| e.event_hash.as_str())
        .collect();
    assert_eq!(hashes_ab, hashes_ba, "merged replay must be symmetric");
}

#[test]
fn replay_disjoint_roots_returns_error() {
    let root_a = make_root(1_000, "agent-a");
    let root_b = make_root(1_100, "agent-b");
    let dag = EventDag::from_events(&[root_a.clone(), root_b.clone()]);

    let err = replay_divergent(&dag, &root_a.event_hash, &root_b.event_hash).unwrap_err();
    assert!(matches!(err, ReplayError::NoDivergence));
}

#[test]
fn replay_event_not_found() {
    let dag = EventDag::new();
    let err = replay_divergent(&dag, "blake3:nope", "blake3:also-nope").unwrap_err();
    assert!(matches!(err, ReplayError::Lca(LcaError::EventNotFound(_))));
}

// ===================================================================
// replay_divergent_for_item tests
// ===================================================================

#[test]
fn replay_for_item_filters_correctly() {
    // Two items diverge from the same root
    let root = make_root(1_000, "agent-a"); // item: bn-test
    let update_test = make_event_for_item(2_000, &[&root.event_hash], "agent-a", "bn-test");
    let update_other = make_event_for_item(2_100, &[&root.event_hash], "agent-b", "bn-other");

    let dag = EventDag::from_events(&[root.clone(), update_test.clone(), update_other.clone()]);

    let replay = replay_divergent_for_item(
        &dag,
        &update_test.event_hash,
        &update_other.event_hash,
        "bn-test",
    )
    .unwrap();

    // Only bn-test events should be in the result
    assert!(
        replay
            .merged
            .iter()
            .all(|e| e.item_id.as_str() == "bn-test")
    );
}

// ===================================================================
// Complex topology tests
// ===================================================================

#[test]
fn replay_after_previous_merge() {
    //     root
    //    /    \
    //  a1      b1
    //    \    /
    //    merge
    //    /    \
    //  a2      b2
    let root = make_root(1_000, "agent-a");
    let a1 = make_update(2_000, &[&root.event_hash], "title", "agent-a");
    let b1 = make_update(2_100, &[&root.event_hash], "priority", "agent-b");
    let merge = make_child(3_000, &[&a1.event_hash, &b1.event_hash], "agent-a");
    let a2 = make_update(4_000, &[&merge.event_hash], "desc", "agent-a");
    let b2 = make_update(4_100, &[&merge.event_hash], "size", "agent-b");

    let dag = EventDag::from_events(&[
        root.clone(),
        a1.clone(),
        b1.clone(),
        merge.clone(),
        a2.clone(),
        b2.clone(),
    ]);

    let replay = replay_divergent(&dag, &a2.event_hash, &b2.event_hash).unwrap();
    // LCA should be the merge point, not the root.
    assert_eq!(replay.lca, merge.event_hash);
    assert_eq!(replay.branch_a.len(), 1); // a2
    assert_eq!(replay.branch_b.len(), 1); // b2
    assert_eq!(replay.merged.len(), 2);
}

#[test]
fn replay_handles_multiple_items() {
    // Fork with events affecting different items
    let root = make_root(1_000, "agent-a");
    let left = make_event_for_item(2_000, &[&root.event_hash], "agent-a", "bn-item1");
    let right = make_event_for_item(2_100, &[&root.event_hash], "agent-b", "bn-item2");

    let dag = EventDag::from_events(&[root.clone(), left.clone(), right.clone()]);

    let replay = replay_divergent(&dag, &left.event_hash, &right.event_hash).unwrap();
    assert_eq!(replay.merged.len(), 2);

    // Filter for item1
    let replay_item1 =
        replay_divergent_for_item(&dag, &left.event_hash, &right.event_hash, "bn-item1")
            .unwrap();
    assert_eq!(replay_item1.merged.len(), 1);
    assert_eq!(replay_item1.merged[0].item_id.as_str(), "bn-item1");

    // Filter for item2
    let replay_item2 =
        replay_divergent_for_item(&dag, &left.event_hash, &right.event_hash, "bn-item2")
            .unwrap();
    assert_eq!(replay_item2.merged.len(), 1);
    assert_eq!(replay_item2.merged[0].item_id.as_str(), "bn-item2");
}

#[test]
fn replay_performance_proportional_to_divergence() {
    // Build a long chain, then fork near the end.
    // The replay should only collect events from the fork point, not the whole chain.
    let mut events = vec![make_root(1_000, "agent-a")];
    for i in 1..50 {
        let parent_hash = events[i - 1].event_hash.clone();
        events.push(make_child(
            1_000 + i as i64 * 100,
            &[&parent_hash],
            "agent-a",
        ));
    }

    // Fork at event 49 (index 49)
    let fork_hash = events[49].event_hash.clone();
    let left = make_update(6_000, &[&fork_hash], "title", "agent-a");
    let right = make_update(6_100, &[&fork_hash], "priority", "agent-b");
    events.push(left.clone());
    events.push(right.clone());

    let dag = EventDag::from_events(&events);

    let replay = replay_divergent(&dag, &left.event_hash, &right.event_hash).unwrap();
    // LCA should be the fork point
    assert_eq!(replay.lca, fork_hash);
    // Only 2 divergent events, not 50
    assert_eq!(replay.merged.len(), 2);
}
