use bones_core::db::fts::SEARCH_BM25;
use bones_core::db::migrations;
use bones_core::db::project::{
    self, ProjectResult, ProjectionStats, CLEAR_PROJECTION, PROJECTED_EVENTS_DDL,
};
use bones_core::db::query::{
    self, QueryAssignee, QueryComment, QueryDependency, QueryItem, QueryLabel,
};
use bones_core::db::statement::{Param, Statement};
use bones_core::event::canonical::parse_json;
use bones_core::event::data::{
    AssignAction, AssignData, CommentData, CompactData, CreateData, DeleteData, EventData, LinkData,
    MoveData, RedactData, SnapshotData, UnlinkData, UpdateData,
};
use bones_core::event::json::{JsonMap, JsonValue};
use bones_core::event::types::EventType;
use bones_core::event::Event;
use bones_core::model::item::{Kind, Size, State, Urgency};
use bones_core::model::item_id::ItemId;
use rusqlite::types::Value;
use rusqlite::{params_from_iter, Connection, Row};

fn json_value(text: &str) -> JsonValue {
    parse_json(text).expect("test JSON")
}

/// The parameters of a statement.
fn values(statement: &Statement) -> Vec<Value> {
    statement
        .params
        .iter()
        .map(|p| match p {
            Param::Null => Value::Null,
            Param::Int(n) => Value::Integer(*n),
            Param::Text(s) => Value::Text(s.clone()),
        })
        .collect()
}

/// Runs a statement that changes rows.
fn execute(conn: &Connection, statement: &Statement) -> rusqlite::Result<usize> {
    conn.execute(&statement.sql, params_from_iter(values(statement)))
}

/// Runs a statement that returns rows.
fn rows<T>(
    conn: &Connection,
    statement: &Statement,
    read: fn(&Row<'_>) -> rusqlite::Result<T>,
) -> rusqlite::Result<Vec<T>> {
    let mut stmt = conn.prepare(&statement.sql)?;
    let found = stmt.query_map(params_from_iter(values(statement)), read)?;
    found.collect()
}

/// Brings the schema to the latest version.
fn migrate(conn: &Connection) -> rusqlite::Result<u32> {
    let stored: i64 = conn.pragma_query_value(None, "user_version", |row| row.get(0))?;
    let current = migrations::current_schema_version(stored).expect("schema version");
    let (pending, version) = migrations::migrate(current);
    for migration in pending {
        conn.execute_batch(migration.sql)?;
        conn.pragma_update(None, "user_version", i64::from(migration.version))?;
        conn.execute(migrations::SET_META_VERSION, (i64::from(migration.version),))?;
    }
    Ok(version)
}

fn read_item(row: &Row<'_>) -> rusqlite::Result<QueryItem> {
    Ok(QueryItem {
        item_id: row.get(0)?,
        title: row.get(1)?,
        description: row.get(2)?,
        kind: row.get(3)?,
        state: row.get(4)?,
        urgency: row.get(5)?,
        size: row.get(6)?,
        parent_id: row.get(7)?,
        compact_summary: row.get(8)?,
        is_deleted: row.get::<_, i64>(9)? != 0,
        deleted_at_us: row.get(10)?,
        search_labels: row.get(11)?,
        created_at_us: row.get(12)?,
        updated_at_us: row.get(13)?,
    })
}

fn get_item(conn: &Connection, id: &str, deleted: bool) -> rusqlite::Result<Option<QueryItem>> {
    Ok(rows(conn, &query::get_item(id, deleted), read_item)?.pop())
}

fn get_labels(conn: &Connection, id: &str) -> rusqlite::Result<Vec<QueryLabel>> {
    rows(conn, &query::get_labels(id), |row| {
        Ok(QueryLabel { item_id: row.get(0)?, label: row.get(1)?, created_at_us: row.get(2)? })
    })
}

fn get_assignees(conn: &Connection, id: &str) -> rusqlite::Result<Vec<QueryAssignee>> {
    rows(conn, &query::get_assignees(id), |row| {
        Ok(QueryAssignee { item_id: row.get(0)?, agent: row.get(1)?, created_at_us: row.get(2)? })
    })
}

fn get_comments(
    conn: &Connection,
    id: &str,
    limit: Option<u32>,
    offset: Option<u32>,
) -> rusqlite::Result<Vec<QueryComment>> {
    rows(conn, &query::get_comments(id, limit, offset), |row| {
        Ok(QueryComment {
            comment_id: row.get(0)?,
            item_id: row.get(1)?,
            event_hash: row.get(2)?,
            author: row.get(3)?,
            body: row.get(4)?,
            created_at_us: row.get(5)?,
        })
    })
}

fn read_dependency(row: &Row<'_>) -> rusqlite::Result<QueryDependency> {
    Ok(QueryDependency {
        item_id: row.get(0)?,
        depends_on_item_id: row.get(1)?,
        link_type: row.get(2)?,
        created_at_us: row.get(3)?,
    })
}

fn get_dependencies(conn: &Connection, id: &str) -> rusqlite::Result<Vec<QueryDependency>> {
    rows(conn, &query::get_dependencies(id), read_dependency)
}

/// A search hit.
struct SearchHit {
    item_id: String,
}

/// Searches with the default weights.
fn search(conn: &Connection, text: &str, limit: u32) -> rusqlite::Result<Vec<SearchHit>> {
    let mut stmt = conn.prepare(SEARCH_BM25)?;
    let found = stmt.query_map((3.0, 2.0, 1.0, text, limit), |row| {
        Ok(SearchHit { item_id: row.get(0)? })
    })?;
    found.collect()
}

/// Runs the statements of events.
struct Projector<'a> {
    conn: &'a Connection,
}

impl<'a> Projector<'a> {
    fn new(conn: &'a Connection) -> Self {
        Projector { conn }
    }

    fn holds(&self, statement: &Statement) -> rusqlite::Result<bool> {
        self.conn.query_row(&statement.sql, params_from_iter(values(statement)), |row| row.get(0))
    }

    fn project_event(&self, event: &Event) -> Result<bool, String> {
        let recorded = self
            .holds(&project::is_event_projected(&event.event_hash))
            .map_err(|e| format!("{e}"))?;
        let exists = self
            .holds(&query::item_exists(event.item_id.as_str()))
            .map_err(|e| format!("{e}"))?;
        match project::project_event_inner(event, recorded, exists)? {
            None => Ok(false),
            Some(steps) => {
                for step in &steps {
                    execute(self.conn, step).map_err(|e| format!("{e}"))?;
                }
                Ok(true)
            }
        }
    }

    fn project_batch(&self, events: &[Event]) -> Result<ProjectionStats, String> {
        let results: Vec<ProjectResult> = events
            .iter()
            .map(|event| match self.project_event(event) {
                Ok(true) => ProjectResult::Projected,
                Ok(false) => ProjectResult::Duplicate,
                Err(_) => ProjectResult::Failed,
            })
            .collect();
        Ok(project::project_batch(&results))
    }
}

fn test_db() -> Connection {
    let conn = Connection::open_in_memory().expect("open in-memory db");
    migrate(&conn).expect("migrate");
    conn.execute_batch(PROJECTED_EVENTS_DDL).expect("create tracking table");
    conn
}

fn make_event(
    event_type: EventType,
    item_id: &str,
    data: EventData,
    hash: &str,
    ts: i64,
) -> Event {
    Event {
        wall_ts_us: ts,
        agent: "test-agent".into(),
        itc: "itc:AQ".into(),
        parents: vec![],
        event_type,
        item_id: ItemId::new_unchecked(item_id),
        data,
        event_hash: format!("blake3:{hash}"),
    }
}

fn make_create(id: &str, title: &str, hash: &str, ts: i64) -> Event {
    make_event(
        EventType::Create,
        id,
        EventData::Create(CreateData {
            title: title.into(),
            kind: Kind::Task,
            size: Some(Size::M),
            urgency: Urgency::Default,
            labels: vec!["backend".into(), "auth".into()],
            parent: None,
            causation: None,
            description: Some("A detailed description".into()),
            extra: JsonMap::new(),
        }),
        hash,
        ts,
    )
}

// -----------------------------------------------------------------------
// Create
// -----------------------------------------------------------------------

#[test]
fn project_create_inserts_item() {
    let conn = test_db();
    let projector = Projector::new(&conn);
    let event = make_create("bn-001", "Fix auth timeout", "aaa", 1000);

    let result = projector.project_event(&event).unwrap();
    assert!(result, "should return true for new projection");

    let item = get_item(&conn, "bn-001", false).unwrap().unwrap();
    assert_eq!(item.title, "Fix auth timeout");
    assert_eq!(item.kind, "task");
    assert_eq!(item.state, "open");
    assert_eq!(item.urgency, "default");
    assert_eq!(item.size.as_deref(), Some("m"));
    assert_eq!(item.description.as_deref(), Some("A detailed description"));
    assert_eq!(item.created_at_us, 1000);
    assert_eq!(item.updated_at_us, 1000);
}

#[test]
fn project_create_inserts_labels() {
    let conn = test_db();
    let projector = Projector::new(&conn);
    let event = make_create("bn-001", "Fix auth", "aaa", 1000);
    projector.project_event(&event).unwrap();

    let labels = get_labels(&conn, "bn-001").unwrap();
    assert_eq!(labels.len(), 2);
    assert_eq!(labels[0].label, "auth");
    assert_eq!(labels[1].label, "backend");
}

// -----------------------------------------------------------------------
// Update
// -----------------------------------------------------------------------

#[test]
fn project_update_title() {
    let conn = test_db();
    let projector = Projector::new(&conn);
    projector
        .project_event(&make_create("bn-001", "Old title", "aaa", 1000))
        .unwrap();

    let update = make_event(
        EventType::Update,
        "bn-001",
        EventData::Update(UpdateData {
            field: "title".into(),
            value: json_value(r#""New title""#),
            extra: JsonMap::new(),
        }),
        "bbb",
        2000,
    );
    projector.project_event(&update).unwrap();

    let item = get_item(&conn, "bn-001", false).unwrap().unwrap();
    assert_eq!(item.title, "New title");
    assert_eq!(item.updated_at_us, 2000);
}

#[test]
fn project_update_description() {
    let conn = test_db();
    let projector = Projector::new(&conn);
    projector
        .project_event(&make_create("bn-001", "Item", "aaa", 1000))
        .unwrap();

    let update = make_event(
        EventType::Update,
        "bn-001",
        EventData::Update(UpdateData {
            field: "description".into(),
            value: json_value(r#""Updated description""#),
            extra: JsonMap::new(),
        }),
        "bbb",
        2000,
    );
    projector.project_event(&update).unwrap();

    let item = get_item(&conn, "bn-001", false).unwrap().unwrap();
    assert_eq!(item.description.as_deref(), Some("Updated description"));
}

#[test]
fn project_update_labels() {
    let conn = test_db();
    let projector = Projector::new(&conn);
    projector
        .project_event(&make_create("bn-001", "Item", "aaa", 1000))
        .unwrap();

    let update = make_event(
        EventType::Update,
        "bn-001",
        EventData::Update(UpdateData {
            field: "labels".into(),
            value: json_value(r#"["frontend", "urgent"]"#),
            extra: JsonMap::new(),
        }),
        "bbb",
        2000,
    );
    projector.project_event(&update).unwrap();

    let labels = get_labels(&conn, "bn-001").unwrap();
    assert_eq!(labels.len(), 2);
    assert_eq!(labels[0].label, "frontend");
    assert_eq!(labels[1].label, "urgent");
}

#[test]
fn project_update_unknown_field_bumps_updated() {
    let conn = test_db();
    let projector = Projector::new(&conn);
    projector
        .project_event(&make_create("bn-001", "Item", "aaa", 1000))
        .unwrap();

    let update = make_event(
        EventType::Update,
        "bn-001",
        EventData::Update(UpdateData {
            field: "future_field".into(),
            value: json_value(r#""whatever""#),
            extra: JsonMap::new(),
        }),
        "bbb",
        2000,
    );
    projector.project_event(&update).unwrap();

    let item = get_item(&conn, "bn-001", false).unwrap().unwrap();
    assert_eq!(item.updated_at_us, 2000);
}

// -----------------------------------------------------------------------
// Move
// -----------------------------------------------------------------------

#[test]
fn project_move_updates_state() {
    let conn = test_db();
    let projector = Projector::new(&conn);
    projector
        .project_event(&make_create("bn-001", "Item", "aaa", 1000))
        .unwrap();

    let mv = make_event(
        EventType::Move,
        "bn-001",
        EventData::Move(MoveData {
            state: State::Doing,
            reason: Some("Starting work".into()),
            extra: JsonMap::new(),
        }),
        "bbb",
        2000,
    );
    projector.project_event(&mv).unwrap();

    let item = get_item(&conn, "bn-001", false).unwrap().unwrap();
    assert_eq!(item.state, "doing");
}

// -----------------------------------------------------------------------
// Assign / Unassign
// -----------------------------------------------------------------------

#[test]
fn project_assign_and_unassign() {
    let conn = test_db();
    let projector = Projector::new(&conn);
    projector
        .project_event(&make_create("bn-001", "Item", "aaa", 1000))
        .unwrap();

    // Assign alice
    let assign = make_event(
        EventType::Assign,
        "bn-001",
        EventData::Assign(AssignData {
            agent: "alice".into(),
            action: AssignAction::Assign,
            extra: JsonMap::new(),
        }),
        "bbb",
        2000,
    );
    projector.project_event(&assign).unwrap();

    let assignees = get_assignees(&conn, "bn-001").unwrap();
    assert_eq!(assignees.len(), 1);
    assert_eq!(assignees[0].agent, "alice");

    // Unassign alice
    let unassign = make_event(
        EventType::Assign,
        "bn-001",
        EventData::Assign(AssignData {
            agent: "alice".into(),
            action: AssignAction::Unassign,
            extra: JsonMap::new(),
        }),
        "ccc",
        3000,
    );
    projector.project_event(&unassign).unwrap();

    let assignees = get_assignees(&conn, "bn-001").unwrap();
    assert!(assignees.is_empty());
}

// -----------------------------------------------------------------------
// Comment
// -----------------------------------------------------------------------

#[test]
fn project_comment_inserts_row() {
    let conn = test_db();
    let projector = Projector::new(&conn);
    projector
        .project_event(&make_create("bn-001", "Item", "aaa", 1000))
        .unwrap();

    let comment = make_event(
        EventType::Comment,
        "bn-001",
        EventData::Comment(CommentData {
            body: "This is a comment".into(),
            extra: JsonMap::new(),
        }),
        "bbb",
        2000,
    );
    projector.project_event(&comment).unwrap();

    let comments = get_comments(&conn, "bn-001", None, None).unwrap();
    assert_eq!(comments.len(), 1);
    assert_eq!(comments[0].body, "This is a comment");
    assert_eq!(comments[0].author, "test-agent");
    assert_eq!(comments[0].event_hash, "blake3:bbb");
}

// -----------------------------------------------------------------------
// Link / Unlink
// -----------------------------------------------------------------------

#[test]
fn project_link_and_unlink() {
    let conn = test_db();
    let projector = Projector::new(&conn);
    projector
        .project_event(&make_create("bn-001", "Blocker", "aaa", 1000))
        .unwrap();
    projector
        .project_event(&make_create("bn-002", "Blocked", "bbb", 1001))
        .unwrap();

    // Link
    let link = make_event(
        EventType::Link,
        "bn-002",
        EventData::Link(LinkData {
            target: "bn-001".into(),
            link_type: "blocks".into(),
            extra: JsonMap::new(),
        }),
        "ccc",
        2000,
    );
    projector.project_event(&link).unwrap();

    let deps = get_dependencies(&conn, "bn-002").unwrap();
    assert_eq!(deps.len(), 1);
    assert_eq!(deps[0].depends_on_item_id, "bn-001");

    // Unlink
    let unlink = make_event(
        EventType::Unlink,
        "bn-002",
        EventData::Unlink(UnlinkData {
            target: "bn-001".into(),
            link_type: Some("blocks".into()),
            extra: JsonMap::new(),
        }),
        "ddd",
        3000,
    );
    projector.project_event(&unlink).unwrap();

    let deps = get_dependencies(&conn, "bn-002").unwrap();
    assert!(deps.is_empty());
}

// -----------------------------------------------------------------------
// Delete
// -----------------------------------------------------------------------

#[test]
fn project_delete_soft_deletes() {
    let conn = test_db();
    let projector = Projector::new(&conn);
    projector
        .project_event(&make_create("bn-001", "Item", "aaa", 1000))
        .unwrap();

    let delete = make_event(
        EventType::Delete,
        "bn-001",
        EventData::Delete(DeleteData {
            reason: Some("Duplicate".into()),
            extra: JsonMap::new(),
        }),
        "bbb",
        2000,
    );
    projector.project_event(&delete).unwrap();

    // Not visible without include_deleted
    assert!(get_item(&conn, "bn-001", false).unwrap().is_none());
    // Visible with include_deleted
    let item = get_item(&conn, "bn-001", true).unwrap().unwrap();
    assert!(item.is_deleted);
    assert_eq!(item.deleted_at_us, Some(2000));
}

// -----------------------------------------------------------------------
// Compact
// -----------------------------------------------------------------------

#[test]
fn project_compact_sets_summary() {
    let conn = test_db();
    let projector = Projector::new(&conn);
    projector
        .project_event(&make_create("bn-001", "Item", "aaa", 1000))
        .unwrap();

    let compact = make_event(
        EventType::Compact,
        "bn-001",
        EventData::Compact(CompactData {
            summary: "TL;DR: auth fix".into(),
            extra: JsonMap::new(),
        }),
        "bbb",
        2000,
    );
    projector.project_event(&compact).unwrap();

    let item = get_item(&conn, "bn-001", false).unwrap().unwrap();
    assert_eq!(item.compact_summary.as_deref(), Some("TL;DR: auth fix"));
}

// -----------------------------------------------------------------------
// Snapshot
// -----------------------------------------------------------------------

#[test]
fn project_snapshot_stores_json() {
    let conn = test_db();
    let projector = Projector::new(&conn);
    projector
        .project_event(&make_create("bn-001", "Item", "aaa", 1000))
        .unwrap();

    let snapshot = make_event(
        EventType::Snapshot,
        "bn-001",
        EventData::Snapshot(SnapshotData {
            state: json_value(r#"{"id": "bn-001", "title": "Snapshotted"}"#),
            extra: JsonMap::new(),
        }),
        "bbb",
        2000,
    );
    projector.project_event(&snapshot).unwrap();

    let row: String = conn
        .query_row(
            "SELECT snapshot_json FROM items WHERE item_id = 'bn-001'",
            [],
            |row| row.get(0),
        )
        .unwrap();
    let parsed = parse_json(&row).unwrap();
    let title = parsed.as_object().unwrap().get("title").unwrap();
    assert_eq!(title.as_str(), Some("Snapshotted"));
}

// -----------------------------------------------------------------------
// Redact
// -----------------------------------------------------------------------

#[test]
fn project_redact_records_and_blanks_comment() {
    let conn = test_db();
    let projector = Projector::new(&conn);
    projector
        .project_event(&make_create("bn-001", "Item", "aaa", 1000))
        .unwrap();

    // First add a comment
    let comment = make_event(
        EventType::Comment,
        "bn-001",
        EventData::Comment(CommentData {
            body: "Secret password: hunter2".into(),
            extra: JsonMap::new(),
        }),
        "comment_hash",
        2000,
    );
    projector.project_event(&comment).unwrap();

    // Redact it
    let redact = make_event(
        EventType::Redact,
        "bn-001",
        EventData::Redact(RedactData {
            target_hash: "blake3:comment_hash".into(),
            reason: "Accidental secret".into(),
            extra: JsonMap::new(),
        }),
        "redact_hash",
        3000,
    );
    projector.project_event(&redact).unwrap();

    // Check redaction record
    let count: i64 = conn
        .query_row(
            "SELECT COUNT(*) FROM event_redactions WHERE target_event_hash = 'blake3:comment_hash'",
            [],
            |row| row.get(0),
        )
        .unwrap();
    assert_eq!(count, 1);

    // Check comment body is redacted
    let comments = get_comments(&conn, "bn-001", None, None).unwrap();
    assert_eq!(comments.len(), 1);
    assert_eq!(comments[0].body, "[redacted]");
}

// -----------------------------------------------------------------------
// Dedup
// -----------------------------------------------------------------------

#[test]
fn duplicate_events_are_skipped() {
    let conn = test_db();
    let projector = Projector::new(&conn);

    let event = make_create("bn-001", "Item", "aaa", 1000);
    assert!(projector.project_event(&event).unwrap()); // first time
    assert!(!projector.project_event(&event).unwrap()); // duplicate

    // Only one item created
    let count: i64 = conn
        .query_row("SELECT COUNT(*) FROM items", [], |row| row.get(0))
        .unwrap();
    assert_eq!(count, 1);
}

#[test]
fn batch_dedup_counts() {
    let conn = test_db();
    let projector = Projector::new(&conn);

    let event1 = make_create("bn-001", "Item 1", "aaa", 1000);
    let event2 = make_create("bn-002", "Item 2", "bbb", 1001);

    // Project first batch
    let stats1 = projector
        .project_batch(&[event1.clone(), event2.clone()])
        .unwrap();
    assert_eq!(stats1.projected, 2);
    assert_eq!(stats1.duplicates, 0);

    // Replay same batch — all duplicates
    let stats2 = projector.project_batch(&[event1, event2]).unwrap();
    assert_eq!(stats2.projected, 0);
    assert_eq!(stats2.duplicates, 2);
}

// -----------------------------------------------------------------------
// Full replay: incremental matches full rebuild
// -----------------------------------------------------------------------

#[test]
fn incremental_matches_full_replay() {
    let events = vec![
        make_create("bn-001", "Auth bug", "h1", 1000),
        make_event(
            EventType::Move,
            "bn-001",
            EventData::Move(MoveData {
                state: State::Doing,
                reason: None,
                extra: JsonMap::new(),
            }),
            "h2",
            2000,
        ),
        make_event(
            EventType::Assign,
            "bn-001",
            EventData::Assign(AssignData {
                agent: "alice".into(),
                action: AssignAction::Assign,
                extra: JsonMap::new(),
            }),
            "h3",
            3000,
        ),
        make_event(
            EventType::Comment,
            "bn-001",
            EventData::Comment(CommentData {
                body: "Working on it".into(),
                extra: JsonMap::new(),
            }),
            "h4",
            4000,
        ),
        make_event(
            EventType::Update,
            "bn-001",
            EventData::Update(UpdateData {
                field: "title".into(),
                value: json_value(r#""Auth bug (fixed)""#),
                extra: JsonMap::new(),
            }),
            "h5",
            5000,
        ),
        make_event(
            EventType::Move,
            "bn-001",
            EventData::Move(MoveData {
                state: State::Done,
                reason: Some("Shipped".into()),
                extra: JsonMap::new(),
            }),
            "h6",
            6000,
        ),
    ];

    // Full replay
    let conn_full = test_db();
    let proj_full = Projector::new(&conn_full);
    proj_full.project_batch(&events).unwrap();

    // Incremental: one by one
    let conn_inc = test_db();
    let proj_inc = Projector::new(&conn_inc);
    for event in &events {
        proj_inc.project_event(event).unwrap();
    }

    // Compare results
    let item_full = get_item(&conn_full, "bn-001", false)
        .unwrap()
        .unwrap();
    let item_inc = get_item(&conn_inc, "bn-001", false)
        .unwrap()
        .unwrap();

    assert_eq!(item_full.title, item_inc.title);
    assert_eq!(item_full.state, item_inc.state);
    assert_eq!(item_full.updated_at_us, item_inc.updated_at_us);

    let assignees_full = get_assignees(&conn_full, "bn-001").unwrap();
    let assignees_inc = get_assignees(&conn_inc, "bn-001").unwrap();
    assert_eq!(assignees_full.len(), assignees_inc.len());

    let comments_full = get_comments(&conn_full, "bn-001", None, None).unwrap();
    let comments_inc = get_comments(&conn_inc, "bn-001", None, None).unwrap();
    assert_eq!(comments_full.len(), comments_inc.len());
}

// -----------------------------------------------------------------------
// Full rebuild (clear + replay)
// -----------------------------------------------------------------------

#[test]
fn clear_and_replay_produces_same_result() {
    let conn = test_db();
    let projector = Projector::new(&conn);

    let events = vec![
        make_create("bn-001", "Item 1", "h1", 1000),
        make_create("bn-002", "Item 2", "h2", 1001),
        make_event(
            EventType::Link,
            "bn-002",
            EventData::Link(LinkData {
                target: "bn-001".into(),
                link_type: "blocks".into(),
                extra: JsonMap::new(),
            }),
            "h3",
            2000,
        ),
    ];

    // First pass
    projector.project_batch(&events).unwrap();
    let count1: i64 = conn
        .query_row("SELECT COUNT(*) FROM items", [], |row| row.get(0))
        .unwrap();
    assert_eq!(count1, 2);

    // Clear and replay
    conn.execute_batch(CLEAR_PROJECTION).unwrap();
    let count_after_clear: i64 = conn
        .query_row("SELECT COUNT(*) FROM items", [], |row| row.get(0))
        .unwrap();
    assert_eq!(count_after_clear, 0);

    projector.project_batch(&events).unwrap();
    let count2: i64 = conn
        .query_row("SELECT COUNT(*) FROM items", [], |row| row.get(0))
        .unwrap();
    assert_eq!(count2, 2);

    let deps = get_dependencies(&conn, "bn-002").unwrap();
    assert_eq!(deps.len(), 1);
}

// -----------------------------------------------------------------------
// Placeholder item creation
// -----------------------------------------------------------------------

#[test]
fn events_on_missing_item_create_placeholder() {
    let conn = test_db();
    let projector = Projector::new(&conn);

    // Comment on an item that hasn't been created yet
    let comment = make_event(
        EventType::Comment,
        "bn-ghost",
        EventData::Comment(CommentData {
            body: "Comment on missing item".into(),
            extra: JsonMap::new(),
        }),
        "ccc",
        2000,
    );
    projector.project_event(&comment).unwrap();

    // Item exists as placeholder
    let item = get_item(&conn, "bn-ghost", false).unwrap().unwrap();
    assert_eq!(item.title, ""); // placeholder has empty title
    assert_eq!(item.state, "open");
}

// -----------------------------------------------------------------------
// FTS integration
// -----------------------------------------------------------------------

#[test]
fn project_create_populates_fts() {
    let conn = test_db();
    let projector = Projector::new(&conn);
    projector
        .project_event(&make_create(
            "bn-001",
            "Authentication timeout",
            "aaa",
            1000,
        ))
        .unwrap();

    let hits = search(&conn, "authentication", 10).unwrap();
    assert_eq!(hits.len(), 1);
    assert_eq!(hits[0].item_id, "bn-001");
}

#[test]
fn project_update_title_updates_fts() {
    let conn = test_db();
    let projector = Projector::new(&conn);
    projector
        .project_event(&make_create("bn-001", "Old title", "aaa", 1000))
        .unwrap();

    let update = make_event(
        EventType::Update,
        "bn-001",
        EventData::Update(UpdateData {
            field: "title".into(),
            value: json_value(r#""Authorization failure""#),
            extra: JsonMap::new(),
        }),
        "bbb",
        2000,
    );
    projector.project_event(&update).unwrap();

    // Old title not found
    let hits_old = search(&conn, "Old", 10).unwrap();
    assert!(hits_old.is_empty());

    // New title found
    let hits_new = search(&conn, "authorization", 10).unwrap();
    assert_eq!(hits_new.len(), 1);
}

// -----------------------------------------------------------------------
// Batch stats
// -----------------------------------------------------------------------

#[test]
fn batch_reports_correct_stats() {
    let conn = test_db();
    let projector = Projector::new(&conn);

    let events = vec![
        make_create("bn-001", "Item 1", "h1", 1000),
        make_create("bn-002", "Item 2", "h2", 1001),
        make_create("bn-003", "Item 3", "h3", 1002),
    ];

    let stats = projector.project_batch(&events).unwrap();
    assert_eq!(stats.projected, 3);
    assert_eq!(stats.duplicates, 0);
    assert_eq!(stats.errors, 0);
}

// -----------------------------------------------------------------------
// All 11 event types in sequence
// -----------------------------------------------------------------------

#[test]
fn full_lifecycle_all_event_types() {
    let conn = test_db();
    let projector = Projector::new(&conn);

    let mut events = vec![
        // 1. Create
        make_create("bn-001", "Auth bug", "h01", 1000),
        // Create a second item for linking
        make_create("bn-002", "Dep item", "h02", 1001),
    ];

    // 2. Update title
    events.push(make_event(
        EventType::Update,
        "bn-001",
        EventData::Update(UpdateData {
            field: "title".into(),
            value: json_value(r#""Auth timeout bug""#),
            extra: JsonMap::new(),
        }),
        "h03",
        2000,
    ));

    // 3. Move to doing
    events.push(make_event(
        EventType::Move,
        "bn-001",
        EventData::Move(MoveData {
            state: State::Doing,
            reason: None,
            extra: JsonMap::new(),
        }),
        "h04",
        3000,
    ));

    // 4. Assign
    events.push(make_event(
        EventType::Assign,
        "bn-001",
        EventData::Assign(AssignData {
            agent: "alice".into(),
            action: AssignAction::Assign,
            extra: JsonMap::new(),
        }),
        "h05",
        4000,
    ));

    // 5. Comment
    events.push(make_event(
        EventType::Comment,
        "bn-001",
        EventData::Comment(CommentData {
            body: "Found root cause".into(),
            extra: JsonMap::new(),
        }),
        "h06",
        5000,
    ));

    // 6. Link
    events.push(make_event(
        EventType::Link,
        "bn-001",
        EventData::Link(LinkData {
            target: "bn-002".into(),
            link_type: "blocks".into(),
            extra: JsonMap::new(),
        }),
        "h07",
        6000,
    ));

    // 7. Unlink
    events.push(make_event(
        EventType::Unlink,
        "bn-001",
        EventData::Unlink(UnlinkData {
            target: "bn-002".into(),
            link_type: Some("blocks".into()),
            extra: JsonMap::new(),
        }),
        "h08",
        7000,
    ));

    // 8. Compact
    events.push(make_event(
        EventType::Compact,
        "bn-001",
        EventData::Compact(CompactData {
            summary: "Auth token refresh race".into(),
            extra: JsonMap::new(),
        }),
        "h09",
        8000,
    ));

    // 9. Snapshot
    events.push(make_event(
        EventType::Snapshot,
        "bn-001",
        EventData::Snapshot(SnapshotData {
            state: json_value(r#"{"id": "bn-001", "resolved": true}"#),
            extra: JsonMap::new(),
        }),
        "h10",
        9000,
    ));

    // 10. Redact the comment
    events.push(make_event(
        EventType::Redact,
        "bn-001",
        EventData::Redact(RedactData {
            target_hash: "blake3:h06".into(),
            reason: "Contained secret".into(),
            extra: JsonMap::new(),
        }),
        "h11",
        10000,
    ));

    // 11. Delete
    events.push(make_event(
        EventType::Delete,
        "bn-001",
        EventData::Delete(DeleteData {
            reason: Some("Duplicate".into()),
            extra: JsonMap::new(),
        }),
        "h12",
        11000,
    ));

    let stats = projector.project_batch(&events).unwrap();
    assert_eq!(stats.projected, 12); // 2 creates + 10 mutations
    assert_eq!(stats.duplicates, 0);
    assert_eq!(stats.errors, 0);

    // Verify final state
    let item = get_item(&conn, "bn-001", true).unwrap().unwrap();
    assert_eq!(item.title, "Auth timeout bug");
    assert_eq!(item.state, "doing");
    assert!(item.is_deleted);
    assert_eq!(
        item.compact_summary.as_deref(),
        Some("Auth token refresh race")
    );
    let snapshot: Option<String> = conn
        .query_row(
            "SELECT snapshot_json FROM items WHERE item_id = 'bn-001'",
            [],
            |row| row.get(0),
        )
        .unwrap();
    assert!(snapshot.is_some());

    // Comment was redacted
    let comments = get_comments(&conn, "bn-001", None, None).unwrap();
    assert_eq!(comments.len(), 1);
    assert_eq!(comments[0].body, "[redacted]");

    // Dependencies were unlinked
    let deps = get_dependencies(&conn, "bn-001").unwrap();
    assert!(deps.is_empty());

    // Redaction record exists
    let redaction_count: i64 = conn
        .query_row("SELECT COUNT(*) FROM event_redactions", [], |row| {
            row.get(0)
        })
        .unwrap();
    assert_eq!(redaction_count, 1);
}

#[test]
fn payload_of_another_type_is_an_error() {
    let mut event = make_create("bn-001", "Item", "aaa", 1000);
    event.event_type = EventType::Move;
    assert_eq!(
        project::project_event(&event, true).unwrap_err(),
        "expected Move data for item.move event"
    );
    // A deletion needs no payload of its own.
    event.event_type = EventType::Delete;
    assert_eq!(project::project_event(&event, true).unwrap().len(), 2);

    let conn = test_db();
    event.event_type = EventType::Move;
    let stats = Projector::new(&conn).project_batch(&[event]).unwrap();
    assert_eq!((stats.projected, stats.duplicates, stats.errors), (0, 0, 1));
}

#[test]
fn statements_of_an_event_end_with_its_record() {
    let event = make_create("bn-001", "Item", "aaa", 1000);
    let steps = project::project_event(&event, false).unwrap();
    // The item, its two labels, the record.
    assert_eq!(steps.len(), 4);
    assert_eq!(steps[3].sql, project::RECORD_EVENT);
    assert_eq!(
        steps[3].params,
        vec![
            Param::Text("blake3:aaa".to_string()),
            Param::Text("bn-001".to_string()),
            Param::Text("item.create".to_string()),
            Param::Int(1000),
        ]
    );
    assert!(project::project_event_inner(&event, true, true).unwrap().is_none());
}

#[test]
fn labels_are_replaced_only_by_a_list() {
    let conn = test_db();
    let projector = Projector::new(&conn);
    projector.project_event(&make_create("bn-001", "Item", "aaa", 1000)).unwrap();
    let update = make_event(
        EventType::Update,
        "bn-001",
        EventData::Update(UpdateData {
            field: "labels".into(),
            value: json_value(r#"{"action": "add", "label": "x"}"#),
            extra: JsonMap::new(),
        }),
        "bbb",
        2000,
    );
    projector.project_event(&update).unwrap();
    assert_eq!(get_labels(&conn, "bn-001").unwrap().len(), 2);
    let item = get_item(&conn, "bn-001", false).unwrap().unwrap();
    assert_eq!(item.updated_at_us, 1000);
    assert_eq!(item.search_labels, "backend auth");
}
