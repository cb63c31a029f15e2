//! Full-text search.
//!
//! The full-text table follows the `items` table through triggers. A match in
//! the title counts most, then the description, then the labels.

use vstd::prelude::*;

verus! {

/// Ranked search. The first three parameters weigh title, description and
/// labels; the others are the query and the number of hits. Deleted items are
/// left out, the best match comes first.
pub const SEARCH_BM25: &'static str = "SELECT f.item_id, i.title, bm25(items_fts, ?1, ?2, ?3) AS rank FROM items_fts f INNER JOIN items i ON i.item_id = f.item_id WHERE items_fts MATCH ?4 AND i.is_deleted = 0 ORDER BY rank LIMIT ?5";

/// Fills the full-text table anew from the `items` table.
pub const REBUILD_FTS_INDEX: &'static str = "DELETE FROM items_fts;
INSERT INTO items_fts(rowid, title, description, labels, item_id)
SELECT rowid, title, COALESCE(description, ''), COALESCE(search_labels, ''), item_id
FROM items;";

pub const COUNT_FTS_ROWS: &'static str = "SELECT COUNT(*) FROM items_fts";

pub const COUNT_ALL_ITEMS: &'static str = "SELECT COUNT(*) FROM items";

pub const COUNT_ACTIVE_ITEMS: &'static str = "SELECT COUNT(*) FROM items WHERE is_deleted = 0";

/// Whether the full-text table has as many rows as there are items, with or
/// without the deleted ones.
pub fn fts_in_sync(fts_count: i64, total_items: i64, active_items: i64) -> (r: bool)
    ensures
        r == (fts_count == total_items || fts_count == active_items),
{
    fts_count == total_items || fts_count == active_items
}

}
