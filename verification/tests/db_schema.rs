use bones_core::db::migrations;
use rusqlite::Connection;

/// Brings the schema to the latest version.
fn migrate(conn: &Connection) -> rusqlite::Result<u32> {
    let stored: i64 = conn.pragma_query_value(None, "user_version", |row| row.get(0))?;
    let current = migrations::current_schema_version(stored).expect("schema version");
    let (pending, version) = migrations::migrate(current);
    for migration in pending {
        conn.execute_batch(migration.sql)?;
        conn.pragma_update(None, "user_version", i64::from(migration.version))?;
        conn.execute(migrations::SET_META_VERSION, (i64::from(migration.version),))?;
    }
    Ok(version)
}

fn seeded_conn() -> rusqlite::Result<Connection> {
    let conn = Connection::open_in_memory()?;
    migrate(&conn)?;

    for idx in 0..36_u32 {
        let item_id = format!("bn-{idx:03x}");
        let title = if idx % 4 == 0 {
            format!("Auth timeout regression {idx}")
        } else {
            format!("General maintenance {idx}")
        };
        let description = if idx % 4 == 0 {
            "Authentication retries fail after 30 seconds".to_string()
        } else {
            "Routine maintenance item".to_string()
        };
        let state = if idx % 2 == 0 { "open" } else { "doing" };
        let urgency = if idx % 3 == 0 { "urgent" } else { "default" };
        let labels = if idx % 4 == 0 { "auth backend" } else { "ops" };

        conn.execute(
            "INSERT INTO items (
                item_id,
                title,
                description,
                kind,
                state,
                urgency,
                is_deleted,
                search_labels,
                created_at_us,
                updated_at_us
             ) VALUES (?1, ?2, ?3, 'task', ?4, ?5, 0, ?6, ?7, ?8)",
            (item_id, title, description, state, urgency, labels, i64::from(idx), i64::from(idx) + 1_000),
        )?;

        if idx % 4 == 0 {
            conn.execute(
                "INSERT INTO item_labels (item_id, label, created_at_us)
                 VALUES (?1, 'backend', ?2)",
                (format!("bn-{idx:03x}"), i64::from(idx)),
            )?;
        }

        if idx % 5 == 0 {
            conn.execute(
                "INSERT INTO item_assignees (item_id, agent, created_at_us)
                 VALUES (?1, 'bones-dev/0/keen-engine', ?2)",
                (format!("bn-{idx:03x}"), i64::from(idx)),
            )?;
        }
    }

    conn.execute(
        "INSERT INTO item_dependencies (item_id, depends_on_item_id, link_type, created_at_us)
         VALUES ('bn-006', 'bn-000', 'blocks', 10)",
        [],
    )?;
    conn.execute(
        "INSERT INTO item_dependencies (item_id, depends_on_item_id, link_type, created_at_us)
         VALUES ('bn-00a', 'bn-000', 'blocks', 11)",
        [],
    )?;

    Ok(conn)
}

fn query_plan_details(conn: &Connection, sql: &str) -> rusqlite::Result<Vec<String>> {
    let mut stmt = conn.prepare(&format!("EXPLAIN QUERY PLAN {sql}"))?;
    let details = stmt.query_map([], |row| row.get::<_, String>(3))?;
    details.collect::<Result<Vec<_>, _>>()
}

#[test]
fn query_plan_uses_triage_index() -> rusqlite::Result<()> {
    let conn = seeded_conn()?;
    let details = query_plan_details(
        &conn,
        "SELECT item_id
         FROM items
         WHERE state = 'open' AND urgency = 'urgent'
         ORDER BY updated_at_us DESC
         LIMIT 20",
    )?;

    assert!(
        details
            .iter()
            .any(|detail| detail.contains("idx_items_state_urgency_updated")),
        "expected triage index in plan, got: {details:?}"
    );

    Ok(())
}

#[test]
fn query_plan_uses_label_lookup_index() -> rusqlite::Result<()> {
    let conn = seeded_conn()?;
    let details = query_plan_details(
        &conn,
        "SELECT item_id
         FROM item_labels
         WHERE label = 'backend'
         ORDER BY item_id",
    )?;

    assert!(
        details
            .iter()
            .any(|detail| detail.contains("idx_item_labels_label")),
        "expected label index in plan, got: {details:?}"
    );

    Ok(())
}

#[test]
fn query_plan_uses_reverse_dependency_index() -> rusqlite::Result<()> {
    let conn = seeded_conn()?;
    let details = query_plan_details(
        &conn,
        "SELECT item_id
         FROM item_dependencies
         WHERE depends_on_item_id = 'bn-000' AND link_type = 'blocks'",
    )?;

    assert!(
        details
            .iter()
            .any(|detail| detail.contains("idx_item_dependencies_target_type")),
        "expected dependency index in plan, got: {details:?}"
    );

    Ok(())
}

#[test]
fn fts_supports_weighted_bm25_queries() -> rusqlite::Result<()> {
    let conn = seeded_conn()?;
    let mut stmt = conn.prepare(
        "SELECT item_id
         FROM items_fts
         WHERE items_fts MATCH 'auth'
         ORDER BY bm25(items_fts, 3.0, 2.0, 1.0)
         LIMIT 5",
    )?;

    let rows = stmt
        .query_map([], |row| row.get::<_, String>(0))?
        .collect::<Result<Vec<_>, _>>()?;

    assert!(
        !rows.is_empty(),
        "expected at least one lexical hit from items_fts"
    );

    Ok(())
}
