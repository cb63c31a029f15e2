use bones_core::dag::graph::EventDag;
use bones_core::dag::lca::{find_all_lcas, find_lca, LcaError};
use bones_core::event::canonical::parse_json;
use bones_core::event::data::{CreateData, EventData, MoveData, UpdateData};
use bones_core::event::json::{JsonMap, JsonValue};
use bones_core::event::types::EventType;
use bones_core::event::writer::write_event;
use bones_core::event::Event;
use bones_core::model::item::{Kind, State, Urgency};
use bones_core::model::item_id::ItemId;

fn json_value(text: &str) -> JsonValue {
    parse_json(text).expect("test JSON")
}

// -------------------------------------------------------------------
// Helpers
// -------------------------------------------------------------------

fn make_root(ts: i64, agent: &str) -> Event {
    let mut event = Event {
        wall_ts_us: ts,
        agent: agent.into(),
        itc: "itc:AQ".into(),
        parents: vec![],
        event_type: EventType::Create,
        item_id: ItemId::new_unchecked("bn-test"),
        data: EventData::Create(CreateData {
            title: format!("Root by {agent}"),
            kind: Kind::Task,
            size: None,
            urgency: Urgency::Default,
            labels: vec![],
            parent: None,
            causation: None,
            description: None,
            extra: JsonMap::new(),
        }),
        event_hash: String::new(),
    };
    write_event(&mut event).unwrap();
    event
}

fn make_child(ts: i64, parents: &[&str], agent: &str) -> Event {
    let mut event = Event {
        wall_ts_us: ts,
        agent: agent.into(),
        itc: format!("itc:AQ.{ts}"),
        parents: parents.iter().map(|s| (*s).to_string()).collect(),
        event_type: EventType::Move,
        item_id: ItemId::new_unchecked("bn-test"),
        data: EventData::Move(MoveData {
            state: State::Doing,
            reason: None,
            extra: JsonMap::new(),
        }),
        event_hash: String::new(),
    };
    write_event(&mut event).unwrap();
    event
}

fn make_update(ts: i64, parents: &[&str], field: &str, agent: &str) -> Event {
    let mut event = Event {
        wall_ts_us: ts,
        agent: agent.into(),
        itc: format!("itc:AQ.{ts}"),
        parents: parents.iter().map(|s| (*s).to_string()).collect(),
        event_type: EventType::Update,
        item_id: ItemId::new_unchecked("bn-test"),
        data: EventData::Update(UpdateData {
            field: field.into(),
            value: json_value(r#""new-value""#),
            extra: JsonMap::new(),
        }),
        event_hash: String::new(),
    };
    write_event(&mut event).unwrap();
    event
}

// ===================================================================
// find_lca tests
// ===================================================================

#[test]
fn lca_same_tip() {
    let root = make_root(1_000, "agent-a");
    let dag = EventDag::from_events(&[root.clone()]);

    let lca = find_lca(&dag, &root.event_hash, &root.event_hash).unwrap();
    assert_eq!(lca, Some(root.event_hash));
}

#[test]
fn lca_event_not_found() {
    let dag = EventDag::new();
    let err = find_lca(&dag, "blake3:nope", "blake3:also-nope").unwrap_err();
    assert!(matches!(err, LcaError::EventNotFound(_)));
}

#[test]
fn lca_one_is_ancestor_of_other() {
    // root → child
    let root = make_root(1_000, "agent-a");
    let child = make_child(2_000, &[&root.event_hash], "agent-a");
    let dag = EventDag::from_events(&[root.clone(), child.clone()]);

    // LCA(root, child) = root
    let lca = find_lca(&dag, &root.event_hash, &child.event_hash).unwrap();
    assert_eq!(lca, Some(root.event_hash.clone()));

    // LCA(child, root) = root (symmetric)
    let lca2 = find_lca(&dag, &child.event_hash, &root.event_hash).unwrap();
    assert_eq!(lca2, Some(root.event_hash));
}

#[test]
fn lca_simple_fork() {
    //      root
    //     /    \
    //   left   right
    let root = make_root(1_000, "agent-a");
    let left = make_child(2_000, &[&root.event_hash], "agent-a");
    let right = make_child(2_100, &[&root.event_hash], "agent-b");
    let dag = EventDag::from_events(&[root.clone(), left.clone(), right.clone()]);

    let lca = find_lca(&dag, &left.event_hash, &right.event_hash).unwrap();
    assert_eq!(lca, Some(root.event_hash));
}

#[test]
fn lca_deep_fork() {
    //  root → a → b → left
    //               \→ right
    let root = make_root(1_000, "agent-a");
    let a = make_child(2_000, &[&root.event_hash], "agent-a");
    let b = make_child(3_000, &[&a.event_hash], "agent-a");
    let left = make_child(4_000, &[&b.event_hash], "agent-a");
    let right = make_child(4_100, &[&b.event_hash], "agent-b");

    let dag = EventDag::from_events(&[
        root.clone(),
        a.clone(),
        b.clone(),
        left.clone(),
        right.clone(),
    ]);

    let lca = find_lca(&dag, &left.event_hash, &right.event_hash).unwrap();
    assert_eq!(lca, Some(b.event_hash));
}

#[test]
fn lca_asymmetric_depth() {
    //  root → a → b → c → left
    //       \→ right
    let root = make_root(1_000, "agent-a");
    let a = make_child(2_000, &[&root.event_hash], "agent-a");
    let b = make_child(3_000, &[&a.event_hash], "agent-a");
    let c = make_child(4_000, &[&b.event_hash], "agent-a");
    let left = make_child(5_000, &[&c.event_hash], "agent-a");
    let right = make_child(2_100, &[&root.event_hash], "agent-b");

    let dag = EventDag::from_events(&[
        root.clone(),
        a.clone(),
        b.clone(),
        c.clone(),
        left.clone(),
        right.clone(),
    ]);

    let lca = find_lca(&dag, &left.event_hash, &right.event_hash).unwrap();
    assert_eq!(lca, Some(root.event_hash));
}

#[test]
fn lca_diamond_after_fork() {
    //     root
    //    /    \
    //  a1      b1
    //    \    /
    //    merge
    //    /    \
    //  a2      b2
    let root = make_root(1_000, "agent-a");
    let a1 = make_child(2_000, &[&root.event_hash], "agent-a");
    let b1 = make_child(2_100, &[&root.event_hash], "agent-b");
    let merge = make_child(3_000, &[&a1.event_hash, &b1.event_hash], "agent-a");
    let a2 = make_child(4_000, &[&merge.event_hash], "agent-a");
    let b2 = make_child(4_100, &[&merge.event_hash], "agent-b");

    let dag = EventDag::from_events(&[
        root.clone(),
        a1.clone(),
        b1.clone(),
        merge.clone(),
        a2.clone(),
        b2.clone(),
    ]);

    // LCA of the second fork should be the merge point
    let lca = find_lca(&dag, &a2.event_hash, &b2.event_hash).unwrap();
    assert_eq!(lca, Some(merge.event_hash));
}

#[test]
fn lca_disjoint_roots_returns_none() {
    // Two independent roots with no common ancestor
    let root_a = make_root(1_000, "agent-a");
    let root_b = make_root(1_100, "agent-b");
    let dag = EventDag::from_events(&[root_a.clone(), root_b.clone()]);

    let lca = find_lca(&dag, &root_a.event_hash, &root_b.event_hash).unwrap();
    assert_eq!(lca, None);
}

#[test]
fn lca_is_symmetric() {
    let root = make_root(1_000, "agent-a");
    let left = make_child(2_000, &[&root.event_hash], "agent-a");
    let right = make_child(2_100, &[&root.event_hash], "agent-b");
    let dag = EventDag::from_events(&[root.clone(), left.clone(), right.clone()]);

    let lca_ab = find_lca(&dag, &left.event_hash, &right.event_hash).unwrap();
    let lca_ba = find_lca(&dag, &right.event_hash, &left.event_hash).unwrap();
    assert_eq!(lca_ab, lca_ba, "LCA must be symmetric");
}

// ===================================================================
// find_all_lcas tests
// ===================================================================

#[test]
fn all_lcas_simple_fork() {
    let root = make_root(1_000, "agent-a");
    let left = make_child(2_000, &[&root.event_hash], "agent-a");
    let right = make_child(2_100, &[&root.event_hash], "agent-b");
    let dag = EventDag::from_events(&[root.clone(), left.clone(), right.clone()]);

    let lcas = find_all_lcas(&dag, &left.event_hash, &right.event_hash).unwrap();
    assert_eq!(lcas, vec![root.event_hash]);
}

#[test]
fn all_lcas_criss_cross_merge() {
    // Criss-cross produces TWO LCAs:
    //
    //     root
    //    /    \
    //  a1      b1
    //  |  \  / |
    //  | merge1 |
    //  |  /  \  |
    //  a2      b2
    //
    // Actually, a true criss-cross:
    //     root
    //    /    \
    //  a1      b1
    //  | \    / |
    //  |  m1    |     (m1 = merge of a1+b1)
    //  |    \   |
    //  |     m2 |     (m2 = merge of a1+b1 from other side)
    //  |    /   |
    //  a2      b2
    //
    // For simplicity, test the diamond-with-two-paths case:
    //     root
    //    /    \
    //  a1      b1
    //    \    /
    //    merge
    // This has exactly 1 LCA (merge for tips on different branches after merge).
    //
    // A real 2-LCA case requires parallel merge points:
    //     root
    //    /    \
    //  a1      b1
    //   |\ /|  
    //   | X |
    //   |/ \|
    //  ma    mb    (ma merges a1+b1, mb merges a1+b1 independently)
    //   |    |
    //  a2   b2
    let root = make_root(1_000, "agent-a");
    let a1 = make_child(2_000, &[&root.event_hash], "agent-a");
    let b1 = make_child(2_100, &[&root.event_hash], "agent-b");
    // Two independent merges of a1+b1
    let ma = make_child(3_000, &[&a1.event_hash, &b1.event_hash], "agent-a");
    let mb = make_update(3_100, &[&a1.event_hash, &b1.event_hash], "title", "agent-b");
    // Further work on each merge
    let a2 = make_child(4_000, &[&ma.event_hash], "agent-a");
    let b2 = make_update(4_100, &[&mb.event_hash], "desc", "agent-b");

    let dag = EventDag::from_events(&[
        root.clone(),
        a1.clone(),
        b1.clone(),
        ma.clone(),
        mb.clone(),
        a2.clone(),
        b2.clone(),
    ]);

    let mut lcas = find_all_lcas(&dag, &a2.event_hash, &b2.event_hash).unwrap();
    lcas.sort();
    // ma is only an ancestor of a2 (not b2), and mb is only an ancestor
    // of b2 (not a2), so neither is a *common* ancestor. The actual
    // common ancestors are a1 and b1, and neither is an ancestor of
    // the other, so both are LCAs.
    assert_eq!(lcas.len(), 2);
    let mut expected = vec![a1.event_hash.clone(), b1.event_hash.clone()];
    expected.sort();
    assert_eq!(lcas, expected);
}

#[test]
fn all_lcas_same_tip() {
    let root = make_root(1_000, "agent-a");
    let dag = EventDag::from_events(&[root.clone()]);

    let lcas = find_all_lcas(&dag, &root.event_hash, &root.event_hash).unwrap();
    assert_eq!(lcas, vec![root.event_hash]);
}

#[test]
fn all_lcas_disjoint() {
    let root_a = make_root(1_000, "agent-a");
    let root_b = make_root(1_100, "agent-b");
    let dag = EventDag::from_events(&[root_a.clone(), root_b.clone()]);

    let lcas = find_all_lcas(&dag, &root_a.event_hash, &root_b.event_hash).unwrap();
    assert!(lcas.is_empty());
}

#[test]
fn all_lcas_event_not_found() {
    let dag = EventDag::new();
    let err = find_all_lcas(&dag, "blake3:nope", "blake3:also-nope").unwrap_err();
    assert!(matches!(err, LcaError::EventNotFound(_)));
}
