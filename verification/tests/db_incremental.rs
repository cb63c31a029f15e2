use bones_core::db::incremental::{
    check_incremental_safety, incremental_apply, validate_cursor_hash, Action, ApplyReport,
    ApplyState, Cursor, NewContent, Reply, ShardSize,
};
use bones_core::db::project::ProjectionStats;
use bones_core::db::rebuild::{rebuild, RebuildReport};
use bones_core::db::{dirty_marker_text, needs_rebuild, projection_dirty_marker_path};
use bones_core::event::data::{CreateData, EventData};
use bones_core::event::json::JsonMap;
use bones_core::event::types::EventType;
use bones_core::event::writer::write_event;
use bones_core::event::Event;
use bones_core::model::item::{Kind, Size, Urgency};
use bones_core::model::item_id::ItemId;
use std::time::Duration;

#[test]
fn check_incremental_safety_fails_schema_mismatch() {
    // The shards do not matter for the schema check
    let result = check_incremental_safety(&Ok(999), &Ok(true), &Ok(vec![]));
    assert!(result.is_err());
    assert!(result.unwrap_err().contains("schema version"));
}

#[test]
fn check_incremental_safety_fails_missing_tracking_table() {
    let result = check_incremental_safety(&Ok(2), &Ok(false), &Ok(vec![]));
    assert!(result.is_err());
    assert!(result.unwrap_err().contains("projected_events"));
}

#[test]
fn validate_cursor_hash_finds_hash_near_offset() {
    let content = "line1\thash1\nline2\tblake3:abc123\nline3\thash3\n";
    let offset = content.find("line3").unwrap();
    assert!(validate_cursor_hash(content, offset, "blake3:abc123"));
}

#[test]
fn validate_cursor_hash_fails_wrong_hash() {
    let content = "line1\thash1\nline2\tblake3:abc123\nline3\thash3\n";
    let offset = content.find("line3").unwrap();
    assert!(!validate_cursor_hash(content, offset, "blake3:zzz999"));
}

#[test]
fn validate_cursor_hash_fails_zero_offset() {
    let content = "line1\tblake3:abc123\n";
    assert!(!validate_cursor_hash(content, 0, "blake3:abc123"));
}

// -----------------------------------------------------------------------
// Safety checks
// -----------------------------------------------------------------------

fn shard(month: u32, manifest_len: Option<u64>, file_len: Result<u64, String>) -> ShardSize {
    ShardSize { year: 2026, month, manifest_len, file_len }
}

#[test]
fn check_incremental_safety_passes_valid_db() {
    let shards = vec![
        shard(1, Some(10), Ok(10)),
        shard(2, None, Ok(99)),
        shard(3, None, Err("gone".to_string())),
    ];
    let result = check_incremental_safety(&Ok(2), &Ok(true), &Ok(shards));
    assert!(result.is_ok(), "safety check failed: {result:?}");
}

#[test]
fn check_incremental_safety_gives_the_first_reason() {
    let reason = |version: Result<u32, String>,
                  table: Result<bool, String>,
                  shards: Result<Vec<ShardSize>, String>| {
        check_incremental_safety(&version, &table, &shards).unwrap_err()
    };
    let e = || "boom".to_string();
    assert_eq!(reason(Err(e()), Ok(false), Err(e())), "failed to read schema version: boom");
    assert_eq!(
        reason(Ok(1), Ok(false), Err(e())),
        "schema version mismatch: db has v1, code expects v2"
    );
    assert_eq!(
        reason(Ok(2), Err(e()), Err(e())),
        "failed to check projected_events table: boom"
    );
    assert_eq!(reason(Ok(2), Ok(false), Err(e())), "projected_events tracking table missing");
    assert_eq!(reason(Ok(2), Ok(true), Err(e())), "failed to list shards: boom");
    assert_eq!(
        reason(
            Ok(2),
            Ok(true),
            Ok(vec![
                shard(1, Some(10), Ok(10)),
                shard(2, Some(10), Ok(12)),
                shard(3, Some(1), Ok(2)),
                shard(4, None, Ok(0)),
            ])
        ),
        "sealed shard 2026-02 size mismatch: manifest says 10 bytes, file is 12 bytes"
    );
    assert_eq!(
        reason(
            Ok(2),
            Ok(true),
            Ok(vec![shard(11, Some(10), Err(e())), shard(12, None, Ok(0))])
        ),
        "cannot stat sealed shard 2026-11: boom"
    );
}

#[test]
fn the_shard_being_written_is_not_checked() {
    let shards = vec![shard(1, Some(10), Ok(12))];
    assert!(check_incremental_safety(&Ok(2), &Ok(true), &Ok(shards)).is_ok());
}

#[test]
fn validate_cursor_hash_looks_only_at_the_window() {
    let content = format!("blake3:abc123{}", "x".repeat(512));
    assert!(!validate_cursor_hash(&content, content.len(), "blake3:abc123"));
    assert!(validate_cursor_hash(&content, 512, "blake3:abc123"));
    assert!(!validate_cursor_hash(&content, content.len() + 1, "x"));
    // The hash must end before the cursor.
    assert!(!validate_cursor_hash(&content, 12, "blake3:abc123"));
}

// -----------------------------------------------------------------------
// Incremental apply
// -----------------------------------------------------------------------

/// A log and a projection in memory.
#[derive(Default)]
struct World {
    log: String,
    schema_version: u32,
    /// Cursor and projected hashes; none if there is no database.
    database: Option<(i64, Option<String>, Vec<String>)>,
}

impl World {
    fn new() -> World {
        World { schema_version: 2, ..World::default() }
    }

    fn append(&mut self, id: &str, title: &str, ts: i64) {
        let mut event = Event {
            wall_ts_us: ts,
            agent: "test-agent".into(),
            itc: "itc:AQ".into(),
            parents: vec![],
            event_type: EventType::Create,
            item_id: ItemId::new_unchecked(id),
            data: EventData::Create(CreateData {
                title: title.into(),
                kind: Kind::Task,
                size: Some(Size::M),
                urgency: Urgency::Default,
                labels: vec!["test".into()],
                parent: None,
                causation: None,
                description: Some(format!("Description for {title}")),
                extra: JsonMap::new(),
            }),
            event_hash: String::new(),
        };
        let line = write_event(&mut event).expect("write event");
        self.log.push_str(&line);
    }

    fn project(&mut self, events: &[Event]) -> usize {
        let hashes = &mut self.database.as_mut().expect("database").2;
        let mut projected = 0;
        for event in events {
            if !hashes.contains(&event.event_hash) {
                hashes.push(event.event_hash.clone());
                projected += 1;
            }
        }
        projected
    }

    fn rebuild(&mut self) -> usize {
        let plan = rebuild(&self.log).expect("readable log");
        self.schema_version = 2;
        self.database = Some((0, None, Vec::new()));
        let projected = self.project(&plan.events);
        let database = self.database.as_mut().expect("database");
        database.0 = plan.cursor.offset;
        database.1 = plan.cursor.hash;
        projected
    }

    /// Does what is asked for until the end.
    fn apply(&mut self, force_full: bool) -> Result<ApplyReport, String> {
        let mut state = ApplyState::Start { force_full };
        let mut reply = Reply::Begin;
        loop {
            let (next, action) = incremental_apply(state, reply);
            state = next;
            reply = match action {
                Action::Open => Reply::Opened(self.database.is_some()),
                Action::ReadCursor => {
                    let (offset, hash, _) = self.database.as_ref().expect("database");
                    Reply::CursorRead(Cursor { offset: *offset, hash: hash.clone() })
                }
                Action::CheckSafety => Reply::Checked(check_incremental_safety(
                    &Ok(self.schema_version),
                    &Ok(true),
                    &Ok(vec![]),
                )),
                Action::ReadLog { offset } => Reply::LogRead(NewContent {
                    shards: 1,
                    text: self.log.get(offset..).unwrap_or("").to_string(),
                    total_len: self.log.len(),
                }),
                Action::ReadWindow { from, to } => {
                    Reply::WindowRead(self.log.get(from..to).map(String::from))
                }
                Action::Project { events } => {
                    let projected = self.project(&events);
                    Reply::Projected(ProjectionStats {
                        projected,
                        duplicates: events.len() - projected,
                        errors: 0,
                    })
                }
                Action::MoveCursor { cursor } => {
                    let database = self.database.as_mut().expect("database");
                    database.0 = cursor.offset;
                    database.1 = cursor.hash;
                    Reply::CursorMoved
                }
                Action::Rebuild { .. } => Reply::Rebuilt { events: self.rebuild(), shards: 1 },
                Action::Finish { events_applied, shards_scanned, reason } => {
                    return Ok(ApplyReport::new(
                        events_applied,
                        shards_scanned,
                        reason,
                        Duration::from_secs(0),
                    ));
                }
                Action::Fail { message } => return Err(message),
                Action::Confused => panic!("reply does not fit"),
            };
        }
    }

    fn items(&self) -> usize {
        self.database.as_ref().map_or(0, |d| d.2.len())
    }
}

#[test]
fn incremental_apply_on_empty_db_does_full_rebuild() {
    let mut world = World::new();
    let report = world.apply(false).unwrap();
    assert!(report.full_rebuild_triggered);
    assert!(
        report
            .full_rebuild_reason
            .as_deref()
            .unwrap()
            .contains("missing"),
        "reason: {:?}",
        report.full_rebuild_reason
    );
}

#[test]
fn incremental_apply_force_full() {
    let mut world = World::new();
    world.append("bn-001", "Item 1", 1000);

    // First, do a normal rebuild to set up the DB
    world.rebuild();

    // Now force a full rebuild
    let report = world.apply(true).unwrap();
    assert!(report.full_rebuild_triggered);
    assert_eq!(
        report.full_rebuild_reason.as_deref(),
        Some("force_full flag set")
    );
    assert_eq!(report.events_applied, 1);
}

#[test]
fn incremental_apply_picks_up_new_events() {
    let mut world = World::new();
    world.append("bn-001", "Item 1", 1000);
    world.append("bn-002", "Item 2", 1001);
    world.rebuild();

    // Add a new event
    world.append("bn-003", "Item 3", 1002);

    // Incremental apply should only pick up the new event
    let report = world.apply(false).unwrap();
    assert!(!report.full_rebuild_triggered);
    assert_eq!(report.events_applied, 1);
    assert_eq!(report.shards_scanned, 1);
    assert_eq!(world.items(), 3);
}

#[test]
fn incremental_apply_noop_when_up_to_date() {
    let mut world = World::new();
    world.append("bn-001", "Item 1", 1000);
    world.rebuild();

    // No new events — incremental should be a no-op
    let report = world.apply(false).unwrap();
    assert!(!report.full_rebuild_triggered);
    assert_eq!(report.events_applied, 0);
}

#[test]
fn incremental_apply_multiple_rounds() {
    let mut world = World::new();

    // Round 1: initial rebuild
    world.append("bn-001", "Item 1", 1000);
    world.rebuild();

    // Round 2: incremental
    world.append("bn-002", "Item 2", 1001);
    let r2 = world.apply(false).unwrap();
    assert!(!r2.full_rebuild_triggered);
    assert_eq!(r2.events_applied, 1);

    // Round 3: another incremental
    world.append("bn-003", "Item 3", 1002);
    world.append("bn-004", "Item 4", 1003);
    let r3 = world.apply(false).unwrap();
    assert!(!r3.full_rebuild_triggered);
    assert_eq!(r3.events_applied, 2);

    assert_eq!(world.items(), 4);
}

#[test]
fn schema_version_mismatch_triggers_full_rebuild() {
    let mut world = World::new();
    world.append("bn-001", "Item 1", 1000);
    world.rebuild();

    // Tamper with the schema version
    world.schema_version = 999;

    let report = world.apply(false).unwrap();
    assert!(report.full_rebuild_triggered);
    assert!(
        report
            .full_rebuild_reason
            .as_deref()
            .unwrap()
            .contains("schema version"),
        "reason: {:?}",
        report.full_rebuild_reason
    );
}

#[test]
fn a_log_that_was_rewritten_is_replayed() {
    let mut world = World::new();
    world.append("bn-001", "Item 1", 1000);
    world.rebuild();
    world.log.clear();
    world.append("bn-002", "Item 2", 1001);
    let report = world.apply(false).unwrap();
    assert_eq!(
        report.full_rebuild_reason.as_deref(),
        Some("cursor hash not found at expected byte offset")
    );
    assert_eq!(world.items(), 1);
}

#[test]
fn a_database_without_cursor_is_rebuilt() {
    let mut world = World::new();
    world.append("bn-001", "Item 1", 1000);
    world.database = Some((0, None, Vec::new()));
    let report = world.apply(false).unwrap();
    assert_eq!(report.full_rebuild_reason.as_deref(), Some("fresh database (no cursor)"));
    assert_eq!(report.events_applied, 1);

    // A hash without an offset cannot be found.
    world.database = Some((0, Some("blake3:aa".to_string()), Vec::new()));
    let report = world.apply(false).unwrap();
    assert_eq!(
        report.full_rebuild_reason.as_deref(),
        Some("cursor hash not found at expected byte offset")
    );
}

#[test]
fn comments_after_the_cursor_move_it() {
    let mut world = World::new();
    world.append("bn-001", "Item 1", 1000);
    world.rebuild();
    let hash = world.database.as_ref().unwrap().1.clone();
    world.log.push_str("# a comment\n\n");
    let report = world.apply(false).unwrap();
    assert!(!report.full_rebuild_triggered);
    assert_eq!(report.events_applied, 0);
    let database = world.database.as_ref().unwrap();
    assert_eq!(database.0, world.log.len() as i64);
    assert_eq!(database.1, hash);
}

#[test]
fn an_unreadable_line_is_reported() {
    let mut world = World::new();
    world.append("bn-001", "Item 1", 1000);
    world.rebuild();
    let offset = world.log.len();
    world.log.push_str("# a comment\nbad line\n");
    assert_eq!(
        world.apply(false).unwrap_err(),
        format!(
            "parse error at line 2 (offset {offset}): \
             expected 8 tab-separated fields, found 1"
        )
    );
    assert_eq!(
        rebuild("bad line\n").unwrap_err(),
        "parse error at line 1: expected 8 tab-separated fields, found 1"
    );
}

#[test]
fn a_reply_that_does_not_fit_ends_the_apply() {
    let (state, action) = incremental_apply(ApplyState::Opening, Reply::CursorMoved);
    assert!(matches!(state, ApplyState::Done));
    assert!(matches!(action, Action::Confused));
}

#[test]
fn a_rebuild_counts_what_was_projected() {
    let stats = ProjectionStats { projected: 3, duplicates: 1, errors: 0 };
    let report = RebuildReport::new(&stats, 2, 1, Duration::from_secs(1));
    assert_eq!(
        report,
        RebuildReport {
            event_count: 3,
            item_count: 2,
            elapsed: Duration::from_secs(1),
            shard_count: 1,
            fts5_rebuilt: true,
        }
    );
    assert_eq!(RebuildReport::new(&stats, -1, 1, Duration::from_secs(1)).item_count, 0);
}

// -----------------------------------------------------------------------
// Stale projections
// -----------------------------------------------------------------------

#[test]
fn a_projection_is_stale_unless_its_cursor_is_the_end_of_the_log() {
    let cursor = Cursor { offset: 10, hash: Some("blake3:aa".to_string()) };
    assert!(!needs_rebuild(false, Some(&cursor), 10));
    assert!(needs_rebuild(true, Some(&cursor), 10));
    assert!(needs_rebuild(false, Some(&cursor), 11));
    assert!(needs_rebuild(false, None, 10));
    let fresh = Cursor { offset: 0, hash: None };
    assert!(needs_rebuild(false, Some(&fresh), 0));
}

#[test]
fn marker_of_a_stale_projection() {
    assert_eq!(
        projection_dirty_marker_path("/work/.bones"),
        "/work/.bones/cache/projection.dirty"
    );
    assert_eq!(projection_dirty_marker_path("/work/"), "/work/cache/projection.dirty");
    assert_eq!(projection_dirty_marker_path(""), "cache/projection.dirty");
    assert_eq!(dirty_marker_text(17, "write failed"), "17 write failed\n");
}
