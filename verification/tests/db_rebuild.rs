use bones_core::db::incremental::{Cursor, EventHash};
use bones_core::db::migrations;
use bones_core::db::project::{
    self, ProjectResult, ProjectionStats, PROJECTED_EVENTS_DDL,
};
use bones_core::db::query;
use bones_core::db::rebuild::{rebuild as plan_rebuild, RebuildReport};
use bones_core::db::statement::{Param, Statement};
use bones_core::event::data::{CreateData, EventData, MoveData};
use bones_core::event::json::JsonMap;
use bones_core::event::types::EventType;
use bones_core::event::writer::{self, shard_header};
use bones_core::event::Event;
use bones_core::model::item::{Kind, Size, State, Urgency};
use bones_core::model::item_id::ItemId;
use rusqlite::types::Value;
use rusqlite::{params_from_iter, Connection};
use std::time::Instant;

fn values(statement: &Statement) -> Vec<Value> {
    statement
        .params
        .iter()
        .map(|param| match param {
            Param::Null => Value::Null,
            Param::Int(n) => Value::Integer(*n),
            Param::Text(s) => Value::Text(s.clone()),
        })
        .collect()
}

fn execute(conn: &Connection, statement: &Statement) -> rusqlite::Result<usize> {
    conn.execute(&statement.sql, params_from_iter(values(statement)))
}

fn holds(conn: &Connection, statement: &Statement) -> bool {
    conn.query_row(&statement.sql, params_from_iter(values(statement)), |row| row.get(0)).unwrap()
}

fn get_projection_cursor(conn: &Connection) -> Cursor {
    conn.query_row(&query::get_projection_cursor().sql, [], |row| {
        Ok(Cursor { offset: row.get(0)?, hash: row.get(1)? })
    })
    .unwrap()
}

/// A fresh database with the latest schema.
fn migrated() -> Connection {
    let conn = Connection::open_in_memory().unwrap();
    for step in migrations::migrate(0).0 {
        conn.execute_batch(step.sql).unwrap();
    }
    conn
}

/// A log of one shard.
fn setup_log() -> Vec<String> {
    vec![shard_header()]
}

fn project_batch(conn: &Connection, events: &[Event]) -> ProjectionStats {
    let mut results = Vec::new();
    for event in events {
        let recorded = holds(conn, &project::is_event_projected(&event.event_hash));
        let exists = holds(conn, &query::item_exists(event.item_id.as_str()));
        match project::project_event_inner(event, recorded, exists).unwrap() {
            None => results.push(ProjectResult::Duplicate),
            Some(steps) => {
                for step in &steps {
                    execute(conn, step).unwrap();
                }
                results.push(ProjectResult::Projected);
            }
        }
    }
    project::project_batch(&results)
}

/// Builds a projection from a log.
fn rebuild(shards: &[String]) -> (RebuildReport, Connection) {
    let start = Instant::now();
    let conn = migrated();
    conn.execute_batch(PROJECTED_EVENTS_DDL).unwrap();
    let plan = plan_rebuild(&shards.concat()).unwrap();
    let stats = project_batch(&conn, &plan.events);
    let hash = plan.cursor.hash.as_deref();
    execute(&conn, &query::update_projection_cursor(plan.cursor.offset, hash, 1)).unwrap();
    let items: i64 = conn.query_row("SELECT COUNT(*) FROM items", [], |row| row.get(0)).unwrap();
    (RebuildReport::new(&stats, items, shards.len(), start.elapsed()), conn)
}

fn make_create_event(id: &str, title: &str, ts: i64) -> Event {
    let mut event = Event {
        wall_ts_us: ts,
        agent: "test-agent".into(),
        itc: "itc:AQ".into(),
        parents: vec![],
        event_type: EventType::Create,
        item_id: ItemId::new_unchecked(id),
        data: EventData::Create(CreateData {
            title: title.into(),
            kind: Kind::Task,
            size: Some(Size::M),
            urgency: Urgency::Default,
            labels: vec!["test".into()],
            parent: None,
            causation: None,
            description: Some(format!("Description for {title}")),
            extra: JsonMap::new(),
        }),
        event_hash: String::new(),
    };
    writer::write_event(&mut event).expect("compute hash");
    event
}

fn make_move_event(id: &str, state: State, ts: i64, parent_hash: &str) -> Event {
    let mut event = Event {
        wall_ts_us: ts,
        agent: "test-agent".into(),
        itc: "itc:AQ".into(),
        parents: vec![parent_hash.into()],
        event_type: EventType::Move,
        item_id: ItemId::new_unchecked(id),
        data: EventData::Move(MoveData { state, reason: None, extra: JsonMap::new() }),
        event_hash: String::new(),
    };
    writer::write_event(&mut event).expect("compute hash");
    event
}

fn append_event(log: &mut Vec<String>, event: &Event) {
    let line = writer::write_line(event).expect("serialize event");
    log.last_mut().expect("active shard").push_str(&line);
}

fn titles(conn: &Connection) -> Vec<String> {
    let mut stmt = conn.prepare("SELECT title FROM items ORDER BY item_id").unwrap();
    stmt.query_map([], |row| row.get(0)).unwrap().map(|r| r.unwrap()).collect()
}

#[test]
fn rebuild_empty_event_log() {
    let log = setup_log();

    let (report, conn) = rebuild(&log);
    assert_eq!(report.event_count, 0);
    assert_eq!(report.item_count, 0);
    assert_eq!(report.shard_count, 1);
    assert!(report.fts5_rebuilt);

    let count: i64 = conn
        .query_row("SELECT COUNT(*) FROM items", [], |row| row.get(0))
        .unwrap();
    assert_eq!(count, 0);
}

#[test]
fn rebuild_with_events() {
    let mut log = setup_log();

    // Write events
    let create1 = make_create_event("bn-001", "First item", 1000);
    let create2 = make_create_event("bn-002", "Second item", 1001);
    let mv = make_move_event("bn-001", State::Doing, 2000, &create1.event_hash);

    append_event(&mut log, &create1);
    append_event(&mut log, &create2);
    append_event(&mut log, &mv);

    let (report, conn) = rebuild(&log);
    assert_eq!(report.event_count, 3);
    assert_eq!(report.item_count, 2);

    // Verify items
    let item: String = conn
        .query_row(
            "SELECT state FROM items WHERE item_id = 'bn-001'",
            [],
            |row| row.get(0),
        )
        .unwrap();
    assert_eq!(item, "doing");
}

#[test]
fn rebuild_replaces_existing_db() {
    let mut log = setup_log();

    // First rebuild with 1 event
    let create1 = make_create_event("bn-001", "Item 1", 1000);
    append_event(&mut log, &create1);

    let (report1, _) = rebuild(&log);
    assert_eq!(report1.event_count, 1);
    assert_eq!(report1.item_count, 1);

    // Add another event and rebuild again
    let create2 = make_create_event("bn-002", "Item 2", 1001);
    append_event(&mut log, &create2);

    let (report2, _) = rebuild(&log);
    assert_eq!(report2.event_count, 2);
    assert_eq!(report2.item_count, 2);
}

#[test]
fn rebuild_is_deterministic() {
    let mut log = setup_log();

    let create1 = make_create_event("bn-001", "Deterministic test", 1000);
    let create2 = make_create_event("bn-002", "Another item", 1001);
    append_event(&mut log, &create1);
    append_event(&mut log, &create2);

    // Rebuild twice into different databases
    let (report_a, conn_a) = rebuild(&log);
    let (report_b, conn_b) = rebuild(&log);

    assert_eq!(report_a.event_count, report_b.event_count);
    assert_eq!(report_a.item_count, report_b.item_count);

    // Verify same items in both
    assert_eq!(titles(&conn_a), titles(&conn_b));
    assert_eq!(titles(&conn_a), vec!["Deterministic test", "Another item"]);
}

#[test]
fn rebuild_populates_fts() {
    let mut log = setup_log();

    let create = make_create_event("bn-001", "Authentication timeout fix", 1000);
    append_event(&mut log, &create);

    let (_, conn) = rebuild(&log);
    let hits: i64 = conn
        .query_row(
            "SELECT COUNT(*) FROM items_fts WHERE items_fts MATCH 'authentication'",
            [],
            |row| row.get(0),
        )
        .unwrap();
    assert_eq!(hits, 1);
}

#[test]
fn rebuild_updates_projection_cursor() {
    let mut log = setup_log();

    let create = make_create_event("bn-001", "Item", 1000);
    append_event(&mut log, &create);

    let (_, conn) = rebuild(&log);
    let Cursor { offset, hash } = get_projection_cursor(&conn);
    assert!(offset > 0, "cursor offset should be non-zero after rebuild");
    assert!(hash.is_some(), "cursor hash should be set after rebuild");
    assert_eq!(offset, log.concat().len() as i64);
    assert_eq!(hash, Some(create.event_hash));
}

#[test]
fn rebuild_handles_duplicate_events() {
    let mut log = setup_log();

    // Append same event twice (simulates git merge duplication)
    let create = make_create_event("bn-001", "Item", 1000);
    append_event(&mut log, &create);
    append_event(&mut log, &create);

    let (report, _) = rebuild(&log);
    // Only 1 unique event projected, 1 duplicate skipped
    assert_eq!(report.event_count, 1);
    assert_eq!(report.item_count, 1);
}

#[test]
fn rebuild_performance_reasonable() {
    let mut log = setup_log();

    // Create 100 items — should be well under 1s
    for i in 0..100_u32 {
        let create = make_create_event(
            &format!("bn-{i:04x}"),
            &format!("Item {i}"),
            i64::from(i) * 1000,
        );
        append_event(&mut log, &create);
    }

    let (report, _) = rebuild(&log);
    assert_eq!(report.event_count, 100);
    assert_eq!(report.item_count, 100);
    assert!(
        report.elapsed.as_millis() < 1000,
        "rebuild of 100 items took {}ms, expected <1000ms",
        report.elapsed.as_millis()
    );
}

#[test]
fn incremental_apply_matches_full_rebuild() {
    let mut log = setup_log();

    // Create several events
    for i in 0..10 {
        let e = make_create_event(
            &format!("bn-{i:03x}"),
            &format!("Item {i}"),
            1000 + i64::from(i),
        );
        append_event(&mut log, &e);
    }

    let (_, conn_full) = rebuild(&log);
    let (_, conn_inc) = rebuild(&log);

    // Compare item counts
    let count_full: i64 = conn_full
        .query_row("SELECT COUNT(*) FROM items", [], |row| row.get(0))
        .unwrap();
    let count_inc: i64 = conn_inc
        .query_row("SELECT COUNT(*) FROM items", [], |row| row.get(0))
        .unwrap();
    assert_eq!(count_full, count_inc);
    assert_eq!(count_full, 10);

    // Compare titles
    assert_eq!(titles(&conn_full), titles(&conn_inc));
}

/// Reads the hash of the last event that was applied.
fn read_hwm(conn: &Connection) -> Option<EventHash> {
    get_projection_cursor(conn).hash.map(EventHash)
}

/// Writes the hash of the last event that was applied. The offset stays.
fn write_hwm(conn: &Connection, hwm: &EventHash) {
    let offset = get_projection_cursor(conn).offset;
    execute(conn, &query::update_projection_cursor(offset, Some(&hwm.0), 1)).unwrap();
}

#[test]
fn read_hwm_returns_none_for_fresh_db() {
    let conn = migrated();

    let hwm = read_hwm(&conn);
    assert!(hwm.is_none());
}

#[test]
fn write_and_read_hwm_roundtrip() {
    let conn = migrated();

    let hash = EventHash("blake3:abc123".into());
    write_hwm(&conn, &hash);

    let retrieved = read_hwm(&conn);
    assert_eq!(retrieved.unwrap(), hash);
}

#[test]
fn a_log_that_cannot_be_read_is_not_rebuilt_from() {
    let message = plan_rebuild("# header\nno event\n").unwrap_err();
    assert_eq!(message, "parse error at line 2: expected 8 tab-separated fields, found 1");
}
