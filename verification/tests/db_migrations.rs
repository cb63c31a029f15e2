use bones_core::db::migrations::{self, LATEST_SCHEMA_VERSION};
use bones_core::db::schema;
use rusqlite::Connection;

/// Brings the schema to the latest version.
fn migrate(conn: &Connection) -> rusqlite::Result<u32> {
    let stored: i64 = conn.pragma_query_value(None, "user_version", |row| row.get(0))?;
    let current = migrations::current_schema_version(stored).expect("schema version");
    let (pending, version) = migrations::migrate(current);
    for migration in pending {
        conn.execute_batch(migration.sql)?;
        conn.pragma_update(None, "user_version", i64::from(migration.version))?;
        conn.execute(migrations::SET_META_VERSION, (i64::from(migration.version),))?;
    }
    Ok(version)
}

fn current_schema_version(conn: &Connection) -> rusqlite::Result<u32> {
    let stored: i64 = conn.pragma_query_value(None, "user_version", |row| row.get(0))?;
    Ok(migrations::current_schema_version(stored).expect("schema version"))
}

fn sqlite_object_exists(
    conn: &Connection,
    object_type: &str,
    object_name: &str,
) -> rusqlite::Result<bool> {
    conn.query_row(
        "SELECT EXISTS(
            SELECT 1
            FROM sqlite_master
            WHERE type = ?1 AND name = ?2
        )",
        (object_type, object_name),
        |row| row.get(0),
    )
}

#[test]
fn migrate_empty_db_to_latest() -> rusqlite::Result<()> {
    let conn = Connection::open_in_memory()?;

    let applied = migrate(&conn)?;
    assert_eq!(applied, LATEST_SCHEMA_VERSION);
    assert_eq!(current_schema_version(&conn)?, LATEST_SCHEMA_VERSION);

    assert!(sqlite_object_exists(&conn, "table", "items")?);
    assert!(sqlite_object_exists(&conn, "table", "item_labels")?);
    assert!(sqlite_object_exists(&conn, "table", "item_assignees")?);
    assert!(sqlite_object_exists(&conn, "table", "item_dependencies")?);
    assert!(sqlite_object_exists(&conn, "table", "item_comments")?);
    assert!(sqlite_object_exists(&conn, "table", "event_redactions")?);
    assert!(sqlite_object_exists(&conn, "table", "projection_meta")?);
    assert!(sqlite_object_exists(&conn, "table", "items_fts")?);

    for index in schema::REQUIRED_INDEXES {
        assert!(
            sqlite_object_exists(&conn, "index", index)?,
            "missing expected index {index}"
        );
    }

    Ok(())
}

#[test]
fn migrate_is_idempotent() -> rusqlite::Result<()> {
    let conn = Connection::open_in_memory()?;

    assert_eq!(migrate(&conn)?, LATEST_SCHEMA_VERSION);
    assert_eq!(migrate(&conn)?, LATEST_SCHEMA_VERSION);

    let meta_rows: i64 =
        conn.query_row("SELECT COUNT(*) FROM projection_meta", [], |row| row.get(0))?;
    assert_eq!(meta_rows, 1);

    let schema_version: i64 = conn.query_row(
        "SELECT schema_version FROM projection_meta WHERE id = 1",
        [],
        |row| row.get(0),
    )?;
    assert_eq!(schema_version, i64::from(LATEST_SCHEMA_VERSION));

    Ok(())
}

#[test]
fn migrate_upgrades_from_v1_and_backfills_fts() -> rusqlite::Result<()> {
    let conn = Connection::open_in_memory()?;

    conn.execute_batch(schema::MIGRATION_V1_SQL)?;
    conn.pragma_update(None, "user_version", 1_i64)?;
    conn.execute(
        "INSERT INTO items (
            item_id,
            title,
            description,
            kind,
            state,
            urgency,
            is_deleted,
            search_labels,
            created_at_us,
            updated_at_us
        ) VALUES (
            'bn-auth01',
            'Auth timeout in worker sync',
            'Retries fail after 30 seconds',
            'task',
            'open',
            'urgent',
            0,
            'auth backend',
            1,
            2
        )",
        [],
    )?;

    let applied = migrate(&conn)?;
    assert_eq!(applied, LATEST_SCHEMA_VERSION);

    let fts_hits: i64 = conn.query_row(
        "SELECT COUNT(*)
         FROM items_fts
         WHERE items_fts MATCH 'auth'",
        [],
        |row| row.get(0),
    )?;
    assert_eq!(fts_hits, 1);

    let projected_version: i64 = conn.query_row(
        "SELECT schema_version FROM projection_meta WHERE id = 1",
        [],
        |row| row.get(0),
    )?;
    assert_eq!(projected_version, i64::from(LATEST_SCHEMA_VERSION));

    Ok(())
}

#[test]
fn migrations_follow_each_other() {
    let (pending, version) = migrations::migrate(0);
    assert_eq!(version, 2);
    let versions: Vec<u32> = pending.iter().map(|m| m.version).collect();
    assert_eq!(versions, vec![1, 2]);
    assert_eq!(pending[0].sql, schema::MIGRATION_V1_SQL);
    assert_eq!(pending[1].sql, schema::MIGRATION_V2_SQL);

    let (pending, version) = migrations::migrate(1);
    assert_eq!((pending.len(), version), (1, 2));

    // A version from the future stays.
    let (pending, version) = migrations::migrate(999);
    assert_eq!((pending.len(), version), (0, 999));
}

#[test]
fn a_negative_number_is_no_schema_version() {
    assert_eq!(migrations::current_schema_version(2), Some(2));
    assert_eq!(migrations::current_schema_version(-1), None);
    assert_eq!(migrations::current_schema_version(1 << 32), None);
}
