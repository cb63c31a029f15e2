//! What an incremental apply promises as a whole: when it rebuilds, what it reads and
//! what it comes to.

use crate::db::incremental::{
    first_fault, hazard, next, offset_of, sealed, window_start, ActionView, ContentView, CursorView,
    ReplyView, ShardSize, StateView,
};
use crate::db::migrations::LATEST_SCHEMA_VERSION;
use crate::db::project::ProjectionStats;
use crate::db::stale;
use crate::event::parser::after_lines;
use crate::text::slice::{contains_text, lines};
use vstd::prelude::*;

verus! {

/// What an apply is told when it asks.
pub ghost struct Answers {
    /// Whether the database is there and can be opened.
    pub found: bool,
    /// Where the last apply stopped.
    pub cursor: CursorView,
    /// Why it is not safe to go on from there, if it is not.
    pub hazard: Option<Seq<char>>,
    /// The log from the cursor on.
    pub content: ContentView,
    /// The log just before the cursor.
    pub window: Option<Seq<char>>,
    /// What projecting the new events came to.
    pub stats: ProjectionStats,
    /// How many events and shards a rebuild took in.
    pub rebuilt: (usize, usize),
}

/// What is replied to an action.
pub open spec fn reply_to(a: Answers, action: ActionView) -> ReplyView {
    match action {
        ActionView::Open => ReplyView::Opened(a.found),
        ActionView::ReadCursor => ReplyView::CursorRead(a.cursor),
        ActionView::CheckSafety => ReplyView::Checked(a.hazard),
        ActionView::ReadLog { .. } => ReplyView::LogRead(a.content),
        ActionView::ReadWindow { .. } => ReplyView::WindowRead(a.window),
        ActionView::Project { .. } => ReplyView::Projected(a.stats),
        ActionView::MoveCursor { .. } => ReplyView::CursorMoved,
        ActionView::Rebuild { .. } => ReplyView::Rebuilt {
            events: a.rebuilt.0,
            shards: a.rebuilt.1,
        },
        _ => ReplyView::Begin,
    }
}

/// Where an apply stands, and what it asks for, after `n` replies.
pub open spec fn course(a: Answers, force_full: bool, n: nat) -> (StateView, ActionView)
    decreases n,
{
    if n == 0 {
        next(StateView::Start { force_full }, ReplyView::Begin)
    } else {
        let (state, action) = course(a, force_full, (n - 1) as nat);
        if state == StateView::Done {
            (state, action)
        } else {
            next(state, reply_to(a, action))
        }
    }
}

/// Whether an apply cannot go on from the cursor: it is told not to, there is no
/// database, no cursor or no safety, or the log before the cursor does not hold the
/// hash that the cursor names.
pub open spec fn must_rebuild(a: Answers, force_full: bool) -> bool {
    ||| force_full
    ||| !a.found
    ||| a.cursor.offset == 0 && a.cursor.hash is None
    ||| a.hazard is Some
    ||| a.cursor.hash is Some && !(0 < a.cursor.offset <= usize::MAX && a.window is Some
        && contains_text(a.window->0, a.cursor.hash->0))
}

/// An apply rebuilds exactly if it cannot go on from the cursor, and ends with what
/// the rebuild took in and with a reason.
pub proof fn apply_rebuilds_if_it_must(a: Answers, force_full: bool)
    ensures
        ({
            let end = course(a, force_full, 7);
            &&& end.0 == StateView::Done
            &&& must_rebuild(a, force_full) <==> end.1 is Finish && end.1->Finish_reason is Some
            &&& must_rebuild(a, force_full) ==> end.1->events_applied == a.rebuilt.0
                && end.1->shards_scanned == a.rebuilt.1
        }),
{
    reveal_with_fuel(course, 8);
}

/// An apply that goes on from the cursor ends with the number of events that were
/// projected from the rest of the log, and without a reason. Where the rest of the log
/// cannot be read it fails, and where it holds no event nothing is applied.
pub proof fn apply_goes_on_from_the_cursor(a: Answers)
    requires
        !must_rebuild(a, false),
    ensures
        ({
            let end = course(a, false, 7).1;
            let read = after_lines(lines(a.content.text));
            if a.content.text.len() == 0 {
                end == (ActionView::Finish {
                    events_applied: 0,
                    shards_scanned: a.content.shards,
                    reason: None,
                })
            } else if read is Err {
                end is Fail
            } else {
                end == (ActionView::Finish {
                    events_applied: if read->Ok_0.events.len() == 0 {
                        0
                    } else {
                        a.stats.projected
                    },
                    shards_scanned: a.content.shards,
                    reason: None,
                })
            }
        }),
{
    reveal_with_fuel(course, 8);
}

/// Whether what an apply asks for goes with where it stands, and both with what it was
/// told.
spec fn in_step(a: Answers, at: (StateView, ActionView)) -> bool {
    match at {
        (StateView::Opening, ActionView::Open) => true,
        (StateView::ReadingCursor, ActionView::ReadCursor) => true,
        (StateView::CheckingSafety { cursor }, ActionView::CheckSafety) => cursor == a.cursor,
        (StateView::ReadingLog { cursor }, ActionView::ReadLog { offset }) => cursor == a.cursor
            && offset == cursor.position(),
        (
            StateView::ReadingWindow { cursor, content },
            ActionView::ReadWindow { from, to },
        ) => cursor == a.cursor && content == a.content && to == cursor.position() && from
            == window_start(to),
        (
            StateView::Projecting { cursor, .. },
            ActionView::Project { events },
        ) => after_lines(lines(a.content.text)) is Ok && events == after_lines(
            lines(a.content.text),
        )->Ok_0.events && events.len() > 0 && cursor == moved(a),
        (StateView::MovingCursor { .. }, ActionView::MoveCursor { cursor }) => cursor == moved(a),
        (StateView::Rebuilding { .. }, ActionView::Rebuild { .. }) => true,
        (StateView::Done, action) => action is Finish || action is Fail || action is Confused,
        _ => false,
    }
}

/// Where the cursor moves to.
spec fn moved(a: Answers) -> CursorView {
    let events = after_lines(lines(a.content.text))->Ok_0.events;
    CursorView {
        offset: offset_of(a.content.total_len as nat),
        hash: if events.len() == 0 {
            a.cursor.hash
        } else {
            Some(events.last().event_hash)
        },
    }
}

proof fn lemma_in_step(a: Answers, force_full: bool, n: nat)
    ensures
        in_step(a, course(a, force_full, n)),
    decreases n,
{
    if n > 0 {
        lemma_in_step(a, force_full, (n - 1) as nat);
    }
}

/// The log is read from the cursor's offset on, and the window is what ends there: the
/// last 512 bytes before it, or all there are.
pub proof fn apply_reads_where_the_cursor_is(a: Answers, force_full: bool, n: nat)
    requires
        0 <= a.cursor.offset <= usize::MAX,
    ensures
        match course(a, force_full, n).1 {
            ActionView::ReadLog { offset } => offset == a.cursor.offset,
            ActionView::ReadWindow { from, to } => to == a.cursor.offset && to - from == if to < 512 {
                to as int
            } else {
                512
            },
            _ => true,
        },
{
    lemma_in_step(a, force_full, n);
}

/// The events that are projected are those of the log after the cursor, and the cursor
/// moves to the end of the log, with the hash of the last event there. Where there is
/// no event it keeps its hash.
pub proof fn cursor_moves_to_the_end(a: Answers, force_full: bool, n: nat)
    requires
        a.content.total_len <= i64::MAX,
    ensures
        match course(a, force_full, n).1 {
            ActionView::Project { events } => after_lines(lines(a.content.text)) is Ok && events
                == after_lines(lines(a.content.text))->Ok_0.events && events.len() > 0,
            ActionView::MoveCursor { cursor } => {
                let events = after_lines(lines(a.content.text))->Ok_0.events;
                &&& cursor.offset == a.content.total_len
                &&& cursor.hash == if events.len() == 0 {
                    a.cursor.hash
                } else {
                    Some(events[events.len() - 1].event_hash)
                }
            },
            _ => true,
        },
{
    lemma_in_step(a, force_full, n);
}

/// Whether an apply has come no further than what it was told lets it.
spec fn let_on(a: Answers, force_full: bool, state: StateView) -> bool {
    let opened = !force_full && a.found;
    let started = opened && !a.cursor.fresh();
    match state {
        StateView::Opening => !force_full,
        StateView::ReadingCursor => opened,
        StateView::CheckingSafety { .. } => started,
        StateView::ReadingLog { .. } => started && a.hazard is None,
        StateView::ReadingWindow { .. } => started && a.hazard is None && 0 < a.cursor.offset
            <= usize::MAX,
        StateView::Projecting { .. } => !must_rebuild(a, force_full),
        StateView::MovingCursor { .. } => !must_rebuild(a, force_full),
        _ => true,
    }
}

proof fn lemma_let_on(a: Answers, force_full: bool, n: nat)
    ensures
        let_on(a, force_full, course(a, force_full, n).0),
    decreases n,
{
    if n > 0 {
        lemma_let_on(a, force_full, (n - 1) as nat);
        lemma_in_step(a, force_full, (n - 1) as nat);
    }
}

/// An apply that rebuilds does not project events nor move the cursor itself. One that
/// is told to rebuild does not look at the database.
pub proof fn rebuild_leaves_the_cursor(a: Answers, force_full: bool, n: nat)
    requires
        must_rebuild(a, force_full),
    ensures
        !(course(a, force_full, n).1 is Project),
        !(course(a, force_full, n).1 is MoveCursor),
        force_full ==> !(course(a, force_full, n).1 is Open),
{
    lemma_in_step(a, force_full, n);
    lemma_let_on(a, force_full, n);
}

/// A cursor that moved to a length is at that length.
pub proof fn cursor_is_where_it_moved(len: nat, hash: Option<Seq<char>>)
    requires
        len <= i64::MAX,
        len <= usize::MAX,
    ensures
        (CursorView { offset: offset_of(len), hash }).position() == len,
{
}

/// It is safe to go on exactly if the database has the schema that is expected and its
/// tracking table, and every shard but the last is as long as its manifest says, where
/// it has one.
pub proof fn safety_is_all_of_its_conditions(
    schema_version: Result<u32, String>,
    tracking_table: Result<bool, String>,
    shards: Result<Vec<ShardSize>, String>,
)
    ensures
        hazard(schema_version, tracking_table, shards) is None <==> {
            &&& schema_version matches Ok(v) && v == LATEST_SCHEMA_VERSION
            &&& tracking_table matches Ok(t) && t
            &&& shards is Ok
            &&& forall|i: int|
                0 <= i < shards->Ok_0@.len() - 1 ==> ((#[trigger] shards->Ok_0@[i]).manifest_len is None
                    || (shards->Ok_0@[i].file_len is Ok && shards->Ok_0@[i].file_len->Ok_0
                    == shards->Ok_0@[i].manifest_len->0))
        },
{
    if shards is Ok {
        let all = shards->Ok_0@;
        lemma_first_fault(sealed(all));
        assert forall|i: int| 0 <= i < all.len() - 1 implies sealed(all)[i] == #[trigger] all[i] by {
        }
        if first_fault(sealed(all)) is Some {
            let i = choose|i: int|
                0 <= i < sealed(all).len() && (#[trigger] sealed(all)[i]).fault() is Some;
            assert(all[i].fault() is Some);
        } else {
            assert forall|i: int| 0 <= i < all.len() - 1 implies (
            #[trigger] all[i]).fault() is None by {
                assert(sealed(all)[i].fault() is None);
            }
        }
    }
}

proof fn lemma_first_fault(shards: Seq<ShardSize>)
    ensures
        match first_fault(shards) {
            Some(reason) => exists|i: int|
                0 <= i < shards.len() && (#[trigger] shards[i]).fault() == Some(reason) && forall|
                    j: int,
                |
                    0 <= j < i ==> (#[trigger] shards[j]).fault() is None,
            None => forall|i: int|
                0 <= i < shards.len() ==> (#[trigger] shards[i]).fault() is None,
        },
    decreases shards.len(),
{
    if shards.len() > 0 {
        let front = shards.drop_last();
        lemma_first_fault(front);
        assert forall|i: int| 0 <= i < front.len() implies front[i] == #[trigger] shards[i] by {
        }
        assert(shards[shards.len() - 1] == shards.last());
        match first_fault(front) {
            Some(reason) => {
                let i = choose|i: int|
                    0 <= i < front.len() && (#[trigger] front[i]).fault() == Some(reason) && forall|
                        j: int,
                    |
                        0 <= j < i ==> (#[trigger] front[j]).fault() is None;
                assert(shards[i].fault() == Some(reason));
                assert forall|j: int| 0 <= j < i implies (#[trigger] shards[j]).fault() is None by {
                    assert(front[j].fault() is None);
                }
            },
            None => {
                assert forall|j: int| 0 <= j < front.len() implies (
                #[trigger] shards[j]).fault() is None by {
                    assert(front[j].fault() is None);
                }
            },
        }
    }
}

/// After an apply has moved the cursor, the projection is current for the log that was
/// read. It is stale again once the log has another length, or once it is marked.
pub proof fn projection_is_current_after_an_apply(
    a: Answers,
    force_full: bool,
    n: nat,
    marked: bool,
    total_bytes: usize,
)
    requires
        course(a, force_full, n).1 is MoveCursor,
        0 < a.content.total_len <= i64::MAX,
    ensures
        stale(marked, Some(course(a, force_full, n).1->cursor), total_bytes) <==> marked
            || total_bytes != a.content.total_len,
{
    cursor_moves_to_the_end(a, force_full, n);
}

/// A projection without a cursor, or with one that has seen nothing, is stale.
pub proof fn unstarted_projection_is_stale(marked: bool, total_bytes: usize)
    ensures
        stale(marked, None, total_bytes),
        stale(marked, Some(CursorView { offset: 0, hash: None }), total_bytes),
{
}

}
