//! Full rebuild of the projection.
//!
//! The projection is disposable: all of it comes from the event log. A rebuild
//! drops the database, creates the tables, projects every event and sets the
//! cursor to the end of the log.

use crate::db::incremental::{cursor_offset, last_hash, last_hash_of, offset_of, Cursor, CursorView};
use crate::db::project::ProjectionStats;
use crate::event::parser::{after_lines, parse_lines, ParseFault};
use crate::event::roundtrip::{log_text, loggable};
use crate::event::{event_views, Event, EventView};
use crate::text::decimal::{nat_text, u64_text};
use crate::text::slice::lines;
use std::time::Duration;
use vstd::prelude::*;
use vstd::utf8::encode_utf8;

verus! {

/// Report returned after a full projection rebuild.
#[derive(Debug, PartialEq, Eq)]
pub struct RebuildReport {
    /// Total events replayed from all shards.
    pub event_count: usize,
    /// Total unique items in the rebuilt projection.
    pub item_count: usize,
    /// Wall-clock elapsed time for the rebuild.
    pub elapsed: Duration,
    /// Number of shard files processed.
    pub shard_count: usize,
    /// Whether the full-text index was rebuilt.
    pub fts5_rebuilt: bool,
}

/// What a rebuild has to do with a new database.
#[derive(Debug)]
pub struct RebuildPlan {
    /// The events to project, in order.
    pub events: Vec<Event>,
    /// The cursor to set when they are projected.
    pub cursor: Cursor,
}

/// What is wrong with a log that cannot be read.
pub open spec fn unreadable(line_no: nat, fault: ParseFault) -> Seq<char> {
    "parse error at line "@ + nat_text(line_no) + ": "@ + fault.text()
}

/// Plans a rebuild from the content of the whole log: all events are projected,
/// and the cursor moves to the end. A log with a line that cannot be read is an
/// error.
pub fn rebuild(content: &str) -> (r: Result<RebuildPlan, String>)
    ensures
        match after_lines(lines(content@)) {
            Ok(progress) => r is Ok && event_views(r->Ok_0.events@) == progress.events
                && r->Ok_0.cursor@ == (CursorView {
                offset: offset_of(encode_utf8(content@).len()),
                hash: last_hash_of(progress.events),
            }),
            Err((line_no, fault)) => r is Err && r->Err_0@ == unreadable(line_no, fault),
        },
        forall|log: Seq<EventView>| #[trigger]
            loggable(log) && content@ == log_text(log) ==> r is Ok && event_views(
                r->Ok_0.events@,
            ) == log,
{
    match parse_lines(content) {
        Ok(events) => {
            let cursor = Cursor {
                offset: cursor_offset(content.as_bytes().len()),
                hash: last_hash(&events),
            };
            Ok(RebuildPlan { events, cursor })
        },
        Err((line_no, e)) => {
            let mut message = "parse error at line ".to_owned();
            message.append(u64_text(line_no as u64).as_str());
            message.append(": ");
            message.append(e.to_string().as_str());
            Err(message)
        },
    }
}

impl RebuildReport {
    /// Makes the report of a rebuild. A number of items that does not fit counts
    /// as none.
    pub fn new(
        stats: &ProjectionStats,
        item_count: i64,
        shard_count: usize,
        elapsed: Duration,
    ) -> (r: RebuildReport)
        ensures
            r.event_count == stats.projected,
            r.item_count == if 0 <= item_count <= usize::MAX {
                item_count as usize
            } else {
                0
            },
            r.elapsed == elapsed,
            r.shard_count == shard_count,
            r.fts5_rebuilt,
    {
        RebuildReport {
            event_count: stats.projected,
            item_count: if 0 <= item_count && (item_count as u64) <= (usize::MAX as u64) {
                item_count as usize
            } else {
                0
            },
            elapsed,
            shard_count,
            fts5_rebuilt: true,
        }
    }
}

}
