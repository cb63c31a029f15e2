//! The projection database.
//!
//! The event log is the source of truth; a relational database holds what the
//! events add up to. These modules decide which statements the database gets,
//! what its replies mean, and when it has to be rebuilt.

pub mod apply_laws;
pub mod fts;
pub mod incremental;
pub mod migrations;
pub mod project;
pub mod project_laws;
pub mod query;
pub mod query_laws;
pub mod rebuild;
pub mod schema;
pub mod statement;

use crate::db::incremental::{Cursor, CursorView};
use crate::text::decimal::{nat_text, u64_text};
use vstd::prelude::*;

verus! {

/// Where the marker of a stale projection stands, from the data directory.
pub const PROJECTION_DIRTY_MARKER: &'static str = "cache/projection.dirty";

/// Returns the path of the file that marks the projection as stale.
pub fn projection_dirty_marker_path(bones_dir: &str) -> (r: String)
    ensures
        r@ == if bones_dir@.len() == 0 || bones_dir@.last() == '/' {
            bones_dir@ + PROJECTION_DIRTY_MARKER@
        } else {
            bones_dir@ + "/"@ + PROJECTION_DIRTY_MARKER@
        },
{
    let mut path = bones_dir.to_owned();
    let len = bones_dir.unicode_len();
    if len > 0 && bones_dir.get_char(len - 1) != '/' {
        path.append("/");
    }
    path.append(PROJECTION_DIRTY_MARKER);
    path
}

/// Makes the text of the marker: when it was set, and why.
pub fn dirty_marker_text(now_us: u64, reason: &str) -> (r: String)
    ensures
        r@ == nat_text(now_us as nat) + " "@ + reason@ + "\n"@,
{
    let mut text = u64_text(now_us);
    text.append(" ");
    text.append(reason);
    text.append("\n");
    text
}

/// Whether a projection is stale, given where its cursor is.
pub open spec fn stale(marked: bool, cursor: Option<CursorView>, total_bytes: usize) -> bool {
    match cursor {
        Some(cursor) => marked || cursor.fresh() || cursor.position() != total_bytes,
        None => true,
    }
}

/// Whether the projection has to be brought up to date: it is marked, cannot be
/// opened, has no cursor, or its cursor is not the end of the log.
pub fn needs_rebuild(marked: bool, cursor: Option<&Cursor>, total_bytes: usize) -> (r: bool)
    ensures
        r == (marked || cursor is None || cursor->0@.fresh() || cursor->0@.position()
            != total_bytes),
        r == stale(
            marked,
            match cursor {
                Some(cursor) => Some(cursor@),
                None => None,
            },
            total_bytes,
        ),
{
    if marked {
        return true;
    }
    match cursor {
        None => true,
        Some(cursor) => cursor.is_fresh() || cursor.position() != total_bytes,
    }
}

}
