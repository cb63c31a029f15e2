//! The tables of the projection database.
//!
//! - `items` keeps the latest state of each work item
//! - `item_labels`, `item_assignees` and `item_dependencies` hold what an item
//!   has several of
//! - `item_comments` and `event_redactions` keep what events leave behind
//! - `projection_meta` holds the cursor of the replay

use vstd::prelude::*;

verus! {

/// Migration to version one: the tables and the row with the cursor.
pub const MIGRATION_V1_SQL: &'static str = "
CREATE TABLE IF NOT EXISTS items (
    item_id TEXT PRIMARY KEY,
    title TEXT NOT NULL,
    description TEXT,
    kind TEXT NOT NULL CHECK (kind IN ('task', 'goal', 'bug')),
    state TEXT NOT NULL CHECK (state IN ('open', 'doing', 'done', 'archived')),
    urgency TEXT NOT NULL DEFAULT 'default' CHECK (urgency IN ('urgent', 'default', 'punt')),
    size TEXT CHECK (size IS NULL OR size IN ('xxs', 'xs', 's', 'm', 'l', 'xl', 'xxl')),
    parent_id TEXT REFERENCES items(item_id) ON DELETE SET NULL,
    compact_summary TEXT,
    snapshot_json TEXT,
    is_deleted INTEGER NOT NULL DEFAULT 0 CHECK (is_deleted IN (0, 1)),
    deleted_at_us INTEGER,
    search_labels TEXT NOT NULL DEFAULT '',
    created_at_us INTEGER NOT NULL,
    updated_at_us INTEGER NOT NULL,
    CHECK (item_id LIKE 'bn-%')
);

CREATE TABLE IF NOT EXISTS item_labels (
    item_id TEXT NOT NULL REFERENCES items(item_id) ON DELETE CASCADE,
    label TEXT NOT NULL CHECK (length(trim(label)) > 0),
    created_at_us INTEGER NOT NULL,
    PRIMARY KEY (item_id, label)
);

CREATE TABLE IF NOT EXISTS item_assignees (
    item_id TEXT NOT NULL REFERENCES items(item_id) ON DELETE CASCADE,
    agent TEXT NOT NULL CHECK (length(trim(agent)) > 0),
    created_at_us INTEGER NOT NULL,
    PRIMARY KEY (item_id, agent)
);

CREATE TABLE IF NOT EXISTS item_dependencies (
    item_id TEXT NOT NULL REFERENCES items(item_id) ON DELETE CASCADE,
    depends_on_item_id TEXT NOT NULL REFERENCES items(item_id) ON DELETE CASCADE,
    link_type TEXT NOT NULL CHECK (length(trim(link_type)) > 0),
    created_at_us INTEGER NOT NULL,
    PRIMARY KEY (item_id, depends_on_item_id, link_type),
    CHECK (item_id <> depends_on_item_id)
);

CREATE TABLE IF NOT EXISTS item_comments (
    comment_id INTEGER PRIMARY KEY AUTOINCREMENT,
    item_id TEXT NOT NULL REFERENCES items(item_id) ON DELETE CASCADE,
    event_hash TEXT NOT NULL UNIQUE,
    author TEXT NOT NULL,
    body TEXT NOT NULL,
    created_at_us INTEGER NOT NULL
);

CREATE TABLE IF NOT EXISTS event_redactions (
    target_event_hash TEXT PRIMARY KEY,
    item_id TEXT NOT NULL REFERENCES items(item_id) ON DELETE CASCADE,
    reason TEXT NOT NULL,
    redacted_by TEXT NOT NULL,
    redacted_at_us INTEGER NOT NULL
);

CREATE TABLE IF NOT EXISTS projection_meta (
    id INTEGER PRIMARY KEY CHECK (id = 1),
    schema_version INTEGER NOT NULL,
    last_event_offset INTEGER NOT NULL DEFAULT 0,
    last_event_hash TEXT,
    last_rebuild_at_us INTEGER NOT NULL DEFAULT 0
);

INSERT OR IGNORE INTO projection_meta (
    id,
    schema_version,
    last_event_offset,
    last_event_hash,
    last_rebuild_at_us
) VALUES (1, 1, 0, NULL, 0);
";

/// Migration to version two: indexes, the full-text table and its triggers.
pub const MIGRATION_V2_SQL: &'static str = "
CREATE INDEX IF NOT EXISTS idx_items_state_urgency_updated
    ON items(state, urgency, updated_at_us DESC);

CREATE INDEX IF NOT EXISTS idx_items_kind_state
    ON items(kind, state);

CREATE INDEX IF NOT EXISTS idx_items_parent
    ON items(parent_id);

CREATE INDEX IF NOT EXISTS idx_items_deleted_updated
    ON items(is_deleted, updated_at_us DESC);

CREATE INDEX IF NOT EXISTS idx_item_labels_label
    ON item_labels(label, item_id);

CREATE INDEX IF NOT EXISTS idx_item_assignees_agent
    ON item_assignees(agent, item_id);

CREATE INDEX IF NOT EXISTS idx_item_dependencies_target_type
    ON item_dependencies(depends_on_item_id, link_type, item_id);

CREATE INDEX IF NOT EXISTS idx_item_comments_item_created
    ON item_comments(item_id, created_at_us DESC);

CREATE INDEX IF NOT EXISTS idx_event_redactions_item
    ON event_redactions(item_id);

CREATE VIRTUAL TABLE IF NOT EXISTS items_fts USING fts5(
    title,
    description,
    labels,
    item_id UNINDEXED,
    tokenize='porter unicode61',
    prefix='2 3'
);

CREATE TRIGGER IF NOT EXISTS items_ai
AFTER INSERT ON items
BEGIN
    INSERT INTO items_fts(rowid, title, description, labels, item_id)
    VALUES (
        new.rowid,
        new.title,
        COALESCE(new.description, ''),
        COALESCE(new.search_labels, ''),
        new.item_id
    );
END;

CREATE TRIGGER IF NOT EXISTS items_au
AFTER UPDATE ON items
BEGIN
    DELETE FROM items_fts WHERE rowid = old.rowid;

    INSERT INTO items_fts(rowid, title, description, labels, item_id)
    VALUES (
        new.rowid,
        new.title,
        COALESCE(new.description, ''),
        COALESCE(new.search_labels, ''),
        new.item_id
    );
END;

CREATE TRIGGER IF NOT EXISTS items_ad
AFTER DELETE ON items
BEGIN
    DELETE FROM items_fts WHERE rowid = old.rowid;
END;

DELETE FROM items_fts;
INSERT INTO items_fts(rowid, title, description, labels, item_id)
SELECT
    rowid,
    title,
    COALESCE(description, ''),
    COALESCE(search_labels, ''),
    item_id
FROM items;

UPDATE projection_meta
SET schema_version = 2
WHERE id = 1;
";

/// Indexes expected by list, filter and triage queries.
pub const REQUIRED_INDEXES: [&'static str; 9] = [
    "idx_items_state_urgency_updated",
    "idx_items_kind_state",
    "idx_items_parent",
    "idx_items_deleted_updated",
    "idx_item_labels_label",
    "idx_item_assignees_agent",
    "idx_item_dependencies_target_type",
    "idx_item_comments_item_created",
    "idx_event_redactions_item",
];

}
