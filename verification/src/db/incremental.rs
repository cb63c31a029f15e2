//! Incremental projection.
//!
//! The projection keeps a cursor: how many bytes of the log it has seen, and the
//! hash of the last event among them. Only what follows is projected, if that is
//! safe:
//!
//! 1. the schema has the latest version,
//! 2. the hashes of projected events are tracked,
//! 3. no sealed shard has another size than its manifest says,
//! 4. the hash of the cursor stands just before the offset of the cursor.
//!
//! Where it is not, the projection is rebuilt from the whole log, and the report
//! says why.

use crate::db::migrations::LATEST_SCHEMA_VERSION;
use crate::db::project::ProjectionStats;
use crate::event::parser::{after_lines, log_is_read_in_parts, parse_lines, ParseFault};
use crate::event::{event_views, Event, EventView};
use crate::text::decimal::{i64_text, int_text, nat_text, u64_text};
use crate::text::slice::{contains_text, copy_opt, lines, opt_view, str_contains};
use std::time::Duration;
use vstd::prelude::*;
use vstd::utf8::encode_utf8;

verus! {

/// Identifies the last event that was applied to the projection.
#[derive(Debug, PartialEq, Eq)]
pub struct EventHash(pub String);

impl Clone for EventHash {
    fn clone(&self) -> (r: EventHash)
        ensures
            r.0@ == self.0@,
    {
        EventHash(self.0.clone())
    }
}

/// Report from an incremental apply operation.
#[derive(Debug)]
pub struct ApplyReport {
    /// Number of new events applied.
    pub events_applied: usize,
    /// Number of shards scanned.
    pub shards_scanned: usize,
    /// Whether a full rebuild was triggered instead of incremental.
    pub full_rebuild_triggered: bool,
    /// Reason for full rebuild, if triggered.
    pub full_rebuild_reason: Option<String>,
    /// Elapsed wall time.
    pub elapsed: Duration,
}

/// How far the projection has come.
#[derive(Debug, PartialEq, Eq)]
pub struct Cursor {
    /// Bytes of the log that were seen.
    pub offset: i64,
    /// Hash of the last event that was projected.
    pub hash: Option<String>,
}

/// What a cursor holds.
pub ghost struct CursorView {
    pub offset: i64,
    pub hash: Option<Seq<char>>,
}

impl View for Cursor {
    type V = CursorView;

    open spec fn view(&self) -> CursorView {
        CursorView { offset: self.offset, hash: opt_view(self.hash) }
    }
}

impl CursorView {
    /// Whether nothing was projected yet.
    pub open spec fn fresh(self) -> bool {
        self.offset == 0 && self.hash is None
    }

    /// The offset as a position; one that is none counts as the start.
    pub open spec fn position(self) -> usize {
        if 0 <= self.offset <= usize::MAX {
            self.offset as usize
        } else {
            0
        }
    }
}

impl Cursor {
    /// Whether nothing was projected yet.
    pub fn is_fresh(&self) -> (r: bool)
        ensures
            r == self@.fresh(),
    {
        self.offset == 0 && self.hash.is_none()
    }

    /// The offset as a position; one that is none counts as the start.
    pub fn position(&self) -> (r: usize)
        ensures
            r == self@.position(),
    {
        if 0 <= self.offset && (self.offset as u64) <= (usize::MAX as u64) {
            self.offset as usize
        } else {
            0
        }
    }
}

/// The offset for a number of bytes; one that does not fit is the largest.
pub open spec fn offset_of(len: nat) -> i64 {
    if len <= i64::MAX {
        len as i64
    } else {
        i64::MAX
    }
}

/// The offset for a number of bytes; one that does not fit is the largest.
pub fn cursor_offset(len: usize) -> (r: i64)
    ensures
        r == offset_of(len as nat),
{
    if (len as u64) <= (i64::MAX as u64) {
        len as i64
    } else {
        i64::MAX
    }
}

/// The hash of the last event, if there is one.
pub open spec fn last_hash_of(events: Seq<EventView>) -> Option<Seq<char>> {
    if events.len() == 0 {
        None
    } else {
        Some(events.last().event_hash)
    }
}

/// The hash of the last event, if there is one.
pub fn last_hash(events: &Vec<Event>) -> (r: Option<String>)
    ensures
        opt_view(r) == last_hash_of(event_views(events@)),
{
    if events.len() == 0 {
        None
    } else {
        Some(events[events.len() - 1].event_hash.clone())
    }
}

/// What was found out about a shard.
#[derive(Debug)]
pub struct ShardSize {
    pub year: i32,
    pub month: u32,
    /// Size that the manifest gives, if there is a manifest.
    pub manifest_len: Option<u64>,
    /// Size of the file, or why it could not be found out.
    pub file_len: Result<u64, String>,
}

/// The two digits of a month.
pub open spec fn two_digits(n: nat) -> Seq<char> {
    if n < 10 {
        "0"@ + nat_text(n)
    } else {
        nat_text(n)
    }
}

/// The name of a shard: its year and month.
pub open spec fn shard_name(year: i32, month: u32) -> Seq<char> {
    int_text(year as int) + "-"@ + two_digits(month as nat)
}

impl ShardSize {
    /// What is wrong with a sealed shard. One without a manifest is not checked.
    pub open spec fn fault(self) -> Option<Seq<char>> {
        match (self.manifest_len, self.file_len) {
            (None, _) => None,
            (Some(expected), Ok(found)) => if found == expected {
                None
            } else {
                Some(
                    "sealed shard "@ + shard_name(self.year, self.month)
                        + " size mismatch: manifest says "@ + nat_text(expected as nat)
                        + " bytes, file is "@ + nat_text(found as nat) + " bytes"@,
                )
            },
            (Some(_), Err(e)) => Some(
                "cannot stat sealed shard "@ + shard_name(self.year, self.month) + ": "@ + e@,
            ),
        }
    }
}

/// What is wrong with the first shard that something is wrong with.
pub open spec fn first_fault(shards: Seq<ShardSize>) -> Option<Seq<char>>
    decreases shards.len(),
{
    if shards.len() == 0 {
        None
    } else {
        match first_fault(shards.drop_last()) {
            Some(reason) => Some(reason),
            None => shards.last().fault(),
        }
    }
}

/// The shards that are sealed: all but the last, which is being written.
pub open spec fn sealed(shards: Seq<ShardSize>) -> Seq<ShardSize> {
    if shards.len() == 0 {
        shards
    } else {
        shards.drop_last()
    }
}

/// Why the projection cannot be continued, if it cannot.
pub open spec fn hazard(
    schema_version: Result<u32, String>,
    tracking_table: Result<bool, String>,
    shards: Result<Vec<ShardSize>, String>,
) -> Option<Seq<char>> {
    match schema_version {
        Err(e) => Some("failed to read schema version: "@ + e@),
        Ok(version) => if version != LATEST_SCHEMA_VERSION {
            Some(
                "schema version mismatch: db has v"@ + nat_text(version as nat)
                    + ", code expects v"@ + nat_text(LATEST_SCHEMA_VERSION as nat),
            )
        } else {
            match tracking_table {
                Err(e) => Some("failed to check projected_events table: "@ + e@),
                Ok(false) => Some("projected_events tracking table missing"@),
                Ok(true) => match shards {
                    Err(e) => Some("failed to list shards: "@ + e@),
                    Ok(shards) => first_fault(sealed(shards@)),
                },
            }
        },
    }
}

fn prefixed(prefix: &str, text: &str) -> (r: String)
    ensures
        r@ == prefix@ + text@,
{
    let mut r = prefix.to_owned();
    r.append(text);
    r
}

fn shard_text(year: i32, month: u32) -> (r: String)
    ensures
        r@ == shard_name(year, month),
{
    let mut r = i64_text(year as i64);
    r.append("-");
    if month < 10 {
        r.append("0");
    }
    r.append(u64_text(month as u64).as_str());
    assert(r@ =~= shard_name(year, month));
    r
}

fn shard_fault(shard: &ShardSize) -> (r: Option<String>)
    ensures
        opt_view(r) == shard.fault(),
{
    match (&shard.manifest_len, &shard.file_len) {
        (None, _) => None,
        (Some(expected), Ok(found)) => {
            if *found == *expected {
                None
            } else {
                let mut r = prefixed(
                    "sealed shard ",
                    shard_text(shard.year, shard.month).as_str(),
                );
                r.append(" size mismatch: manifest says ");
                r.append(u64_text(*expected).as_str());
                r.append(" bytes, file is ");
                r.append(u64_text(*found).as_str());
                r.append(" bytes");
                Some(r)
            }
        },
        (Some(_), Err(e)) => {
            let mut r = prefixed(
                "cannot stat sealed shard ",
                shard_text(shard.year, shard.month).as_str(),
            );
            r.append(": ");
            r.append(e.as_str());
            Some(r)
        },
    }
}

proof fn lemma_fault_stays(shards: Seq<ShardSize>, n: int)
    requires
        0 <= n <= shards.len(),
        first_fault(shards.take(n)) is Some,
    ensures
        first_fault(shards) == first_fault(shards.take(n)),
    decreases shards.len() - n,
{
    if n == shards.len() {
        assert(shards.take(n) =~= shards);
    } else {
        assert(shards.take(n + 1).drop_last() =~= shards.take(n));
        lemma_fault_stays(shards, n + 1);
    }
}

/// Checks whether the projection can be continued: the schema has the latest
/// version, the tracking table exists, and the sealed shards have the sizes that
/// their manifests give. Each argument is what was found out, or why it could
/// not be. Returns why a full rebuild is needed, if it is.
pub fn check_incremental_safety(
    schema_version: &Result<u32, String>,
    tracking_table: &Result<bool, String>,
    shards: &Result<Vec<ShardSize>, String>,
) -> (r: Result<(), String>)
    ensures
        match hazard(*schema_version, *tracking_table, *shards) {
            Some(reason) => r is Err && r->Err_0@ == reason,
            None => r is Ok,
        },
{
    match schema_version {
        Err(e) => return Err(prefixed("failed to read schema version: ", e.as_str())),
        Ok(version) => {
            if *version != LATEST_SCHEMA_VERSION {
                let mut reason = prefixed(
                    "schema version mismatch: db has v",
                    u64_text(*version as u64).as_str(),
                );
                reason.append(", code expects v");
                reason.append(u64_text(LATEST_SCHEMA_VERSION as u64).as_str());
                return Err(reason);
            }
        },
    }
    match tracking_table {
        Err(e) => return Err(prefixed("failed to check projected_events table: ", e.as_str())),
        Ok(exists) => {
            if !*exists {
                return Err("projected_events tracking table missing".to_owned());
            }
        },
    }
    match shards {
        Err(e) => Err(prefixed("failed to list shards: ", e.as_str())),
        Ok(list) => {
            let ghost checked = sealed(list@);
            let mut i: usize = 0;
            assert(checked.take(0) =~= Seq::empty());
            while i + 1 < list.len()
                invariant
                    checked == sealed(list@),
                    i <= checked.len(),
                    list.len() > 0 ==> checked.len() == list.len() - 1,
                    list.len() == 0 ==> checked.len() == 0,
                    first_fault(checked.take(i as int)) is None,
                    hazard(*schema_version, *tracking_table, *shards) == first_fault(checked),
                decreases list.len() - i,
            {
                proof {
                    assert(checked.take(i + 1).drop_last() =~= checked.take(i as int));
                    assert(checked.take(i + 1).last() == list[i as int]);
                }
                if let Some(reason) = shard_fault(&list[i]) {
                    proof {
                        lemma_fault_stays(checked, i + 1);
                    }
                    return Err(reason);
                }
                i += 1;
            }
            assert(checked.take(i as int) =~= checked);
            Ok(())
        },
    }
}

/// How many bytes before the cursor its hash is searched in.
pub const WINDOW: usize = 512;

/// Whether some bytes occur in others, starting at a position.
pub open spec fn bytes_at(s: Seq<u8>, needle: Seq<u8>, i: int) -> bool {
    0 <= i && i + needle.len() <= s.len() && s.subrange(i, i + needle.len()) == needle
}

/// Whether some bytes occur within a range of others.
pub open spec fn bytes_within(s: Seq<u8>, from: int, to: int, needle: Seq<u8>) -> bool {
    exists|i: int| from <= i && i + needle.len() <= to && #[trigger] bytes_at(s, needle, i)
}

/// The start of the window before a position.
pub open spec fn window_start(offset: usize) -> usize {
    if offset >= WINDOW {
        (offset - WINDOW) as usize
    } else {
        0
    }
}

/// Whether the hash of a cursor stands in the window before its offset, in a log
/// that is at hand as a whole.
pub fn validate_cursor_hash(content: &str, offset: usize, hash: &str) -> (r: bool)
    ensures
        r == (0 < offset <= encode_utf8(content@).len() && bytes_within(
            encode_utf8(content@),
            window_start(offset) as int,
            offset as int,
            encode_utf8(hash@),
        )),
{
    let bytes = content.as_bytes();
    let needle = hash.as_bytes();
    if offset == 0 || offset > bytes.len() {
        return false;
    }
    let mut i: usize = if offset >= WINDOW {
        offset - WINDOW
    } else {
        0
    };
    let ghost from = i as int;
    while i <= offset && needle.len() <= offset - i
        invariant
            bytes@ == encode_utf8(content@),
            needle@ == encode_utf8(hash@),
            0 < offset <= bytes.len(),
            from == window_start(offset),
            from <= i <= offset + 1,
            forall|k: int| from <= k < i ==> !#[trigger] bytes_at(bytes@, needle@, k),
        decreases offset + 1 - i,
    {
        let mut j: usize = 0;
        while j < needle.len() && bytes[i + j] == needle[j]
            invariant
                i <= offset <= bytes.len(),
                needle.len() <= offset - i,
                j <= needle.len(),
                forall|k: int| 0 <= k < j ==> bytes[i + k] == #[trigger] needle[k],
            decreases needle.len() - j,
        {
            j += 1;
        }
        if j == needle.len() {
            assert(bytes@.subrange(i as int, i + needle@.len()) =~= needle@);
            assert(bytes_at(bytes@, needle@, i as int));
            return true;
        }
        proof {
            if bytes_at(bytes@, needle@, i as int) {
                assert(bytes@.subrange(i as int, i + needle@.len())[j as int] == bytes[i + j]);
            }
        }
        i += 1;
    }
    false
}

/// What the log holds from the cursor on.
#[derive(Debug)]
pub struct NewContent {
    /// How many shards there are.
    pub shards: usize,
    /// The text from the cursor to the end.
    pub text: String,
    /// The length of the whole log in bytes.
    pub total_len: usize,
}

/// What a [`NewContent`] holds.
pub ghost struct ContentView {
    pub shards: usize,
    pub text: Seq<char>,
    pub total_len: usize,
}

impl View for NewContent {
    type V = ContentView;

    open spec fn view(&self) -> ContentView {
        ContentView { shards: self.shards, text: self.text@, total_len: self.total_len }
    }
}

/// Where an incremental apply stands: what was asked for last.
#[derive(Debug)]
pub enum ApplyState {
    /// Nothing was asked for yet.
    Start { force_full: bool },
    /// The database was to be opened.
    Opening,
    /// The cursor was to be read.
    ReadingCursor,
    /// The safety checks were to be made.
    CheckingSafety { cursor: Cursor },
    /// The log was to be read.
    ReadingLog { cursor: Cursor },
    /// The window before the cursor was to be read.
    ReadingWindow { cursor: Cursor, content: NewContent },
    /// Events were to be projected.
    Projecting { shards: usize, cursor: Cursor },
    /// The cursor was to be moved.
    MovingCursor { applied: usize, shards: usize },
    /// The projection was to be rebuilt.
    Rebuilding { reason: String },
    /// Nothing is left to do.
    Done,
}

/// What came of what was asked for.
#[derive(Debug)]
pub enum Reply {
    /// The first reply: nothing was asked for yet.
    Begin,
    /// Whether the database could be opened.
    Opened(bool),
    /// The cursor.
    CursorRead(Cursor),
    /// Why the projection cannot be continued, if it cannot.
    Checked(Result<(), String>),
    /// The log from the cursor on.
    LogRead(NewContent),
    /// The window, if it could be read.
    WindowRead(Option<String>),
    /// What became of the events.
    Projected(ProjectionStats),
    /// The cursor was moved.
    CursorMoved,
    /// The projection was rebuilt.
    Rebuilt { events: usize, shards: usize },
}

/// What is to be done next.
#[derive(Debug)]
pub enum Action {
    /// Open the database.
    Open,
    /// Read the cursor.
    ReadCursor,
    /// Make the safety checks.
    CheckSafety,
    /// Read the log from a position on.
    ReadLog { offset: usize },
    /// Read the bytes of the log between two positions.
    ReadWindow { from: usize, to: usize },
    /// Project events, in order.
    Project { events: Vec<Event> },
    /// Move the cursor.
    MoveCursor { cursor: Cursor },
    /// Rebuild the projection from the whole log.
    Rebuild { reason: String },
    /// Report what was done.
    Finish { events_applied: usize, shards_scanned: usize, reason: Option<String> },
    /// Give up.
    Fail { message: String },
    /// The reply does not fit what was asked for.
    Confused,
}

/// What an [`ApplyState`] holds.
pub ghost enum StateView {
    Start { force_full: bool },
    Opening,
    ReadingCursor,
    CheckingSafety { cursor: CursorView },
    ReadingLog { cursor: CursorView },
    ReadingWindow { cursor: CursorView, content: ContentView },
    Projecting { shards: usize, cursor: CursorView },
    MovingCursor { applied: usize, shards: usize },
    Rebuilding { reason: Seq<char> },
    Done,
}

impl View for ApplyState {
    type V = StateView;

    open spec fn view(&self) -> StateView {
        match self {
            ApplyState::Start { force_full } => StateView::Start { force_full: *force_full },
            ApplyState::Opening => StateView::Opening,
            ApplyState::ReadingCursor => StateView::ReadingCursor,
            ApplyState::CheckingSafety { cursor } => StateView::CheckingSafety { cursor: cursor@ },
            ApplyState::ReadingLog { cursor } => StateView::ReadingLog { cursor: cursor@ },
            ApplyState::ReadingWindow { cursor, content } => StateView::ReadingWindow {
                cursor: cursor@,
                content: content@,
            },
            ApplyState::Projecting { shards, cursor } => StateView::Projecting {
                shards: *shards,
                cursor: cursor@,
            },
            ApplyState::MovingCursor { applied, shards } => StateView::MovingCursor {
                applied: *applied,
                shards: *shards,
            },
            ApplyState::Rebuilding { reason } => StateView::Rebuilding { reason: reason@ },
            ApplyState::Done => StateView::Done,
        }
    }
}

/// What a [`Reply`] holds.
pub ghost enum ReplyView {
    Begin,
    Opened(bool),
    CursorRead(CursorView),
    Checked(Option<Seq<char>>),
    LogRead(ContentView),
    WindowRead(Option<Seq<char>>),
    Projected(ProjectionStats),
    CursorMoved,
    Rebuilt { events: usize, shards: usize },
}

impl View for Reply {
    type V = ReplyView;

    open spec fn view(&self) -> ReplyView {
        match self {
            Reply::Begin => ReplyView::Begin,
            Reply::Opened(found) => ReplyView::Opened(*found),
            Reply::CursorRead(cursor) => ReplyView::CursorRead(cursor@),
            Reply::Checked(Ok(())) => ReplyView::Checked(None),
            Reply::Checked(Err(reason)) => ReplyView::Checked(Some(reason@)),
            Reply::LogRead(content) => ReplyView::LogRead(content@),
            Reply::WindowRead(window) => ReplyView::WindowRead(opt_view(*window)),
            Reply::Projected(stats) => ReplyView::Projected(*stats),
            Reply::CursorMoved => ReplyView::CursorMoved,
            Reply::Rebuilt { events, shards } => ReplyView::Rebuilt {
                events: *events,
                shards: *shards,
            },
        }
    }
}

/// What an [`Action`] holds.
pub ghost enum ActionView {
    Open,
    ReadCursor,
    CheckSafety,
    ReadLog { offset: usize },
    ReadWindow { from: usize, to: usize },
    Project { events: Seq<EventView> },
    MoveCursor { cursor: CursorView },
    Rebuild { reason: Seq<char> },
    Finish { events_applied: usize, shards_scanned: usize, reason: Option<Seq<char>> },
    Fail { message: Seq<char> },
    Confused,
}

impl View for Action {
    type V = ActionView;

    open spec fn view(&self) -> ActionView {
        match self {
            Action::Open => ActionView::Open,
            Action::ReadCursor => ActionView::ReadCursor,
            Action::CheckSafety => ActionView::CheckSafety,
            Action::ReadLog { offset } => ActionView::ReadLog { offset: *offset },
            Action::ReadWindow { from, to } => ActionView::ReadWindow { from: *from, to: *to },
            Action::Project { events } => ActionView::Project { events: event_views(events@) },
            Action::MoveCursor { cursor } => ActionView::MoveCursor { cursor: cursor@ },
            Action::Rebuild { reason } => ActionView::Rebuild { reason: reason@ },
            Action::Finish { events_applied, shards_scanned, reason } => ActionView::Finish {
                events_applied: *events_applied,
                shards_scanned: *shards_scanned,
                reason: opt_view(*reason),
            },
            Action::Fail { message } => ActionView::Fail { message: message@ },
            Action::Confused => ActionView::Confused,
        }
    }
}

/// Gives up continuing: the projection is rebuilt.
pub open spec fn falling_back(reason: Seq<char>) -> (StateView, ActionView) {
    (StateView::Rebuilding { reason }, ActionView::Rebuild { reason })
}

/// What is wrong with new content that cannot be read.
pub open spec fn unreadable_at(line_no: nat, offset: usize, fault: ParseFault) -> Seq<char> {
    "parse error at line "@ + nat_text(line_no) + " (offset "@ + nat_text(offset as nat) + "): "@
        + fault.text()
}

/// What is to be done with the content that follows a cursor.
pub open spec fn continuing(cursor: CursorView, content: ContentView) -> (StateView, ActionView) {
    if content.text.len() == 0 {
        (
            StateView::Done,
            ActionView::Finish { events_applied: 0, shards_scanned: content.shards, reason: None },
        )
    } else {
        match after_lines(lines(content.text)) {
            Err((line_no, fault)) => (
                StateView::Done,
                ActionView::Fail { message: unreadable_at(line_no, cursor.position(), fault) },
            ),
            Ok(progress) => {
                let end = offset_of(content.total_len as nat);
                if progress.events.len() == 0 {
                    (
                        StateView::MovingCursor { applied: 0, shards: content.shards },
                        ActionView::MoveCursor {
                            cursor: CursorView { offset: end, hash: cursor.hash },
                        },
                    )
                } else {
                    (
                        StateView::Projecting {
                            shards: content.shards,
                            cursor: CursorView {
                                offset: end,
                                hash: last_hash_of(progress.events),
                            },
                        },
                        ActionView::Project { events: progress.events },
                    )
                }
            },
        }
    }
}

/// The next state and what is to be done, after a reply.
pub open spec fn next(state: StateView, reply: ReplyView) -> (StateView, ActionView) {
    match (state, reply) {
        (StateView::Start { force_full }, ReplyView::Begin) => if force_full {
            falling_back("force_full flag set"@)
        } else {
            (StateView::Opening, ActionView::Open)
        },
        (StateView::Opening, ReplyView::Opened(found)) => if found {
            (StateView::ReadingCursor, ActionView::ReadCursor)
        } else {
            falling_back("projection database missing or corrupt"@)
        },
        (StateView::ReadingCursor, ReplyView::CursorRead(cursor)) => if cursor.fresh() {
            falling_back("fresh database (no cursor)"@)
        } else {
            (StateView::CheckingSafety { cursor }, ActionView::CheckSafety)
        },
        (StateView::CheckingSafety { cursor }, ReplyView::Checked(hazard)) => match hazard {
            Some(reason) => falling_back(reason),
            None => (
                StateView::ReadingLog { cursor },
                ActionView::ReadLog { offset: cursor.position() },
            ),
        },
        (StateView::ReadingLog { cursor }, ReplyView::LogRead(content)) => match cursor.hash {
            None => continuing(cursor, content),
            Some(_) => if cursor.position() == 0 {
                falling_back("cursor hash not found at expected byte offset"@)
            } else {
                (
                    StateView::ReadingWindow { cursor, content },
                    ActionView::ReadWindow {
                        from: window_start(cursor.position()),
                        to: cursor.position(),
                    },
                )
            },
        },
        (
            StateView::ReadingWindow { cursor, content },
            ReplyView::WindowRead(window),
        ) => if window is Some && cursor.hash is Some && contains_text(window->0, cursor.hash->0) {
            continuing(cursor, content)
        } else {
            falling_back("cursor hash not found at expected byte offset"@)
        },
        (StateView::Projecting { shards, cursor }, ReplyView::Projected(stats)) => (
            StateView::MovingCursor { applied: stats.projected, shards },
            ActionView::MoveCursor { cursor },
        ),
        (StateView::MovingCursor { applied, shards }, ReplyView::CursorMoved) => (
            StateView::Done,
            ActionView::Finish { events_applied: applied, shards_scanned: shards, reason: None },
        ),
        (StateView::Rebuilding { reason }, ReplyView::Rebuilt { events, shards }) => (
            StateView::Done,
            ActionView::Finish {
                events_applied: events,
                shards_scanned: shards,
                reason: Some(reason),
            },
        ),
        _ => (StateView::Done, ActionView::Confused),
    }
}

fn fall_back(reason: &str) -> (r: (ApplyState, Action))
    ensures
        (r.0@, r.1@) == falling_back(reason@),
{
    (
        ApplyState::Rebuilding { reason: reason.to_owned() },
        Action::Rebuild { reason: reason.to_owned() },
    )
}

fn go_on(cursor: &Cursor, content: &NewContent) -> (r: (ApplyState, Action))
    ensures
        (r.0@, r.1@) == continuing(cursor@, content@),
{
    if content.text.as_str().is_empty() {
        return (
            ApplyState::Done,
            Action::Finish { events_applied: 0, shards_scanned: content.shards, reason: None },
        );
    }
    match parse_lines(content.text.as_str()) {
        Err((line_no, e)) => {
            let mut message = prefixed("parse error at line ", u64_text(line_no as u64).as_str());
            message.append(" (offset ");
            message.append(u64_text(cursor.position() as u64).as_str());
            message.append("): ");
            message.append(e.to_string().as_str());
            (ApplyState::Done, Action::Fail { message })
        },
        Ok(events) => {
            let offset = cursor_offset(content.total_len);
            if events.len() == 0 {
                (
                    ApplyState::MovingCursor { applied: 0, shards: content.shards },
                    Action::MoveCursor { cursor: Cursor { offset, hash: copy_opt(&cursor.hash) } },
                )
            } else {
                let hash = last_hash(&events);
                (
                    ApplyState::Projecting {
                        shards: content.shards,
                        cursor: Cursor { offset, hash },
                    },
                    Action::Project { events },
                )
            }
        },
    }
}

/// Applies the events after the cursor to the projection, one step at a time:
/// given what came of the last action, says what is to be done next. The first
/// reply is [`Reply::Begin`]; the last action is [`Action::Finish`] or
/// [`Action::Fail`].
///
/// Without a usable database or cursor, or where a check fails, the projection
/// is rebuilt from the whole log. So it is if `force_full` is set at the start.
pub fn incremental_apply(state: ApplyState, reply: Reply) -> (r: (ApplyState, Action))
    ensures
        (r.0@, r.1@) == next(state@, reply@),
{
    match (state, reply) {
        (ApplyState::Start { force_full }, Reply::Begin) => {
            if force_full {
                fall_back("force_full flag set")
            } else {
                (ApplyState::Opening, Action::Open)
            }
        },
        (ApplyState::Opening, Reply::Opened(found)) => {
            if found {
                (ApplyState::ReadingCursor, Action::ReadCursor)
            } else {
                fall_back("projection database missing or corrupt")
            }
        },
        (ApplyState::ReadingCursor, Reply::CursorRead(cursor)) => {
            if cursor.is_fresh() {
                fall_back("fresh database (no cursor)")
            } else {
                (ApplyState::CheckingSafety { cursor }, Action::CheckSafety)
            }
        },
        (ApplyState::CheckingSafety { cursor }, Reply::Checked(checked)) => match checked {
            Err(reason) => fall_back(reason.as_str()),
            Ok(()) => {
                let offset = cursor.position();
                (ApplyState::ReadingLog { cursor }, Action::ReadLog { offset })
            },
        },
        (ApplyState::ReadingLog { cursor }, Reply::LogRead(content)) => {
            if cursor.hash.is_none() {
                go_on(&cursor, &content)
            } else {
                let to = cursor.position();
                if to == 0 {
                    fall_back("cursor hash not found at expected byte offset")
                } else {
                    let from = if to >= WINDOW {
                        to - WINDOW
                    } else {
                        0
                    };
                    (
                        ApplyState::ReadingWindow { cursor, content },
                        Action::ReadWindow { from, to },
                    )
                }
            }
        },
        (ApplyState::ReadingWindow { cursor, content }, Reply::WindowRead(window)) => {
            let found = match (&window, &cursor.hash) {
                (Some(text), Some(hash)) => str_contains(text.as_str(), hash.as_str()),
                _ => false,
            };
            if found {
                go_on(&cursor, &content)
            } else {
                fall_back("cursor hash not found at expected byte offset")
            }
        },
        (ApplyState::Projecting { shards, cursor }, Reply::Projected(stats)) => (
            ApplyState::MovingCursor { applied: stats.projected, shards },
            Action::MoveCursor { cursor },
        ),
        (ApplyState::MovingCursor { applied, shards }, Reply::CursorMoved) => (
            ApplyState::Done,
            Action::Finish { events_applied: applied, shards_scanned: shards, reason: None },
        ),
        (ApplyState::Rebuilding { reason }, Reply::Rebuilt { events, shards }) => (
            ApplyState::Done,
            Action::Finish { events_applied: events, shards_scanned: shards, reason: Some(reason) },
        ),
        _ => (ApplyState::Done, Action::Confused),
    }
}

impl ApplyReport {
    /// Makes the report of an apply. A reason means that the projection was
    /// rebuilt.
    pub fn new(
        events_applied: usize,
        shards_scanned: usize,
        reason: Option<String>,
        elapsed: Duration,
    ) -> (r: ApplyReport)
        ensures
            r.events_applied == events_applied,
            r.shards_scanned == shards_scanned,
            r.full_rebuild_triggered == (reason is Some),
            r.full_rebuild_reason == reason,
            r.elapsed == elapsed,
    {
        ApplyReport {
            events_applied,
            shards_scanned,
            full_rebuild_triggered: reason.is_some(),
            full_rebuild_reason: reason,
            elapsed,
        }
    }
}

/// How many replies an apply still waits for at most.
pub open spec fn steps_left(state: StateView) -> nat {
    match state {
        StateView::Start { .. } => 8,
        StateView::Opening => 7,
        StateView::ReadingCursor => 6,
        StateView::CheckingSafety { .. } => 5,
        StateView::ReadingLog { .. } => 4,
        StateView::ReadingWindow { .. } => 3,
        StateView::Projecting { .. } => 2,
        StateView::MovingCursor { .. } => 1,
        StateView::Rebuilding { .. } => 1,
        StateView::Done => 0,
    }
}

/// Every reply brings an apply nearer to its end, and an apply that is not done
/// has something to do next.
pub proof fn apply_comes_to_an_end(state: StateView, reply: ReplyView)
    requires
        state != StateView::Done,
    ensures
        steps_left(next(state, reply).0) < steps_left(state),
        next(state, reply).0 == StateView::Done <==> (next(state, reply).1 is Finish || next(
            state,
            reply,
        ).1 is Fail || next(state, reply).1 is Confused),
{
}

/// Events are projected only from content that follows a cursor whose hash was
/// found before it, or which has none. The cursor that is set afterwards is the
/// end of the log with the hash of the last of these events.
pub proof fn projected_content_follows_the_cursor(state: StateView, reply: ReplyView)
    requires
        next(state, reply).1 is Project,
    ensures
        match (state, reply) {
            (
                StateView::ReadingLog { cursor },
                ReplyView::LogRead(content),
            ) => cursor.hash is None && follows(next(state, reply), content),
            (
                StateView::ReadingWindow { cursor, content },
                ReplyView::WindowRead(window),
            ) => window is Some && contains_text(window->0, cursor.hash->0) && follows(
                next(state, reply),
                content,
            ),
            _ => false,
        },
{
}

/// Whether the events to project are those of the content, and the cursor to set
/// afterwards is its end.
pub open spec fn follows(step: (StateView, ActionView), content: ContentView) -> bool {
    match step {
        (
            StateView::Projecting { shards, cursor },
            ActionView::Project { events },
        ) => after_lines(lines(content.text)) is Ok && events == after_lines(
            lines(content.text),
        )->Ok_0.events && cursor == (CursorView {
            offset: offset_of(content.total_len as nat),
            hash: last_hash_of(events),
        }) && shards == content.shards,
        _ => false,
    }
}

/// Projecting what follows a cursor adds the events that a rebuild projects
/// after those that were seen before, and leaves the cursor with the hash that
/// a rebuild leaves.
pub proof fn continuing_completes_a_rebuild(
    seen: Seq<char>,
    step: (StateView, ActionView),
    content: ContentView,
)
    requires
        follows(step, content),
        step.1->events.len() > 0,
        seen.len() == 0 || seen.last() == '\n',
        after_lines(lines(seen + content.text)) is Ok,
    ensures
        after_lines(lines(seen)) is Ok,
        after_lines(lines(seen + content.text))->Ok_0.events == after_lines(
            lines(seen),
        )->Ok_0.events + step.1->events,
        last_hash_of(after_lines(lines(seen + content.text))->Ok_0.events)
            == step.0->Projecting_cursor.hash,
{
    log_is_read_in_parts(seen, content.text);
}

}
