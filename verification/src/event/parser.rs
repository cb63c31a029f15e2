//! Reading events from the log.
//!
//! A line is a comment that starts with `#`, blank, or an event of exactly
//! eight tab-separated fields. [`parse_line`] reads and checks everything;
//! [`parse_line_partial`] only takes the fields apart and borrows them.

use crate::event::canonical::{
    canonical_text, canonicalize_json, depth_limit, json_error, parse_json, parsed_json, plain,
};
use crate::event::data::{read_outlined, EventData};
use crate::event::hash_text::hex_value;
use crate::event::json::{JsonTree, JsonValue};
use crate::event::members::{outline, outline_in, outline_of, outline_view};
use crate::event::roundtrip::{
    lemma_no_header, log_is_made_of_lines, log_lines, log_text, loggable, written_event_is_read,
};
use crate::event::types::EventType;
use crate::event::{event_views, hash_fields, line_hash, Event, EventView};
use crate::model::item_id::{valid_id, ItemId};
use crate::text::decimal::{
    i64_value, int_text_reads_back, nat_text, parse_i64, parse_u32, u32_value, u64_text,
};
use crate::text::slice::{
    char_is_space, chars_of, is_space, join, join_undoes_split, lines, lines_of_joined, split_char, split_on, starts_with,
    starts_with_char, str_eq, str_lines, str_starts_with, str_starts_with_char,
    str_strip_line_end, str_strip_prefix, str_trim, str_trim_start, string_views, strip_line_end,
    trim, trim_end, trim_end_char, trim_start, views,
};
use vstd::prelude::*;

verus! {

/// The header line at the top of every event file.
pub const SHARD_HEADER: &'static str = "# bones event log v1";

/// The comment line that follows the header.
pub const FIELD_COMMENT: &'static str =
    "# fields: wall_ts_us \\t agent \\t itc \\t parents \\t type \\t item_id \\t data \\t event_hash";

/// The format version of the log that this crate reads and writes.
pub const CURRENT_VERSION: u32 = 1;

/// What stands before the version number in a header.
pub const HEADER_PREFIX: &'static str = "# bones event log v";

/// Why a line is not accepted.
#[allow(inconsistent_fields)]
#[derive(Debug, Clone, PartialEq, Eq)]
pub enum ParseError {
    /// Line has the wrong number of tab-separated fields.
    FieldCount {
        /// Number of fields found.
        found: usize,
        /// Expected number of fields.
        expected: usize,
    },
    /// The `wall_ts_us` field is not a valid i64.
    InvalidTimestamp(String),
    /// The `agent` field is empty or contains white space.
    InvalidAgent(String),
    /// The `itc` field is empty.
    EmptyItc,
    /// A parent hash is not `blake3:<hex>`.
    InvalidParentHash(String),
    /// The event type is not a known `item.<verb>`.
    InvalidEventType(String),
    /// The item ID is not valid.
    InvalidItemId(String),
    /// The data field is not valid JSON.
    InvalidDataJson(String),
    /// The data does not match the schema of the event type.
    DataSchemaMismatch {
        /// The event type.
        event_type: String,
        /// Details of the mismatch.
        details: String,
    },
    /// The `event_hash` field is not `blake3:<hex>`.
    InvalidEventHash(String),
    /// The computed hash does not match `event_hash`.
    HashMismatch {
        /// Expected (from the line).
        expected: String,
        /// Computed from the other fields.
        computed: String,
    },
    /// The file was written by a newer version; the text says what to do.
    VersionMismatch(String),
}

/// Why a line is not accepted, as plain values.
#[allow(inconsistent_fields)]
pub ghost enum ParseFault {
    FieldCount { found: nat, expected: nat },
    InvalidTimestamp(Seq<char>),
    InvalidAgent(Seq<char>),
    EmptyItc,
    InvalidParentHash(Seq<char>),
    InvalidEventType(Seq<char>),
    InvalidItemId(Seq<char>),
    InvalidDataJson(Seq<char>),
    DataSchemaMismatch { event_type: Seq<char>, details: Seq<char> },
    InvalidEventHash(Seq<char>),
    HashMismatch { expected: Seq<char>, computed: Seq<char> },
    VersionMismatch(Seq<char>),
}

impl View for ParseError {
    type V = ParseFault;

    open spec fn view(&self) -> ParseFault {
        match self {
            ParseError::FieldCount { found, expected } => ParseFault::FieldCount {
                found: *found as nat,
                expected: *expected as nat,
            },
            ParseError::InvalidTimestamp(s) => ParseFault::InvalidTimestamp(s@),
            ParseError::InvalidAgent(s) => ParseFault::InvalidAgent(s@),
            ParseError::EmptyItc => ParseFault::EmptyItc,
            ParseError::InvalidParentHash(s) => ParseFault::InvalidParentHash(s@),
            ParseError::InvalidEventType(s) => ParseFault::InvalidEventType(s@),
            ParseError::InvalidItemId(s) => ParseFault::InvalidItemId(s@),
            ParseError::InvalidDataJson(s) => ParseFault::InvalidDataJson(s@),
            ParseError::DataSchemaMismatch { event_type, details } =>
                ParseFault::DataSchemaMismatch { event_type: event_type@, details: details@ },
            ParseError::InvalidEventHash(s) => ParseFault::InvalidEventHash(s@),
            ParseError::HashMismatch { expected, computed } => ParseFault::HashMismatch {
                expected: expected@,
                computed: computed@,
            },
            ParseError::VersionMismatch(s) => ParseFault::VersionMismatch(s@),
        }
    }
}

impl ParseFault {
    /// The explanation.
    pub open spec fn text(self) -> Seq<char> {
        match self {
            ParseFault::FieldCount { found, expected } => "expected "@ + nat_text(expected)
                + " tab-separated fields, found "@ + nat_text(found),
            ParseFault::InvalidTimestamp(raw) => "invalid wall_ts_us (not i64): '"@ + raw + "'"@,
            ParseFault::InvalidAgent(raw) => "invalid agent field: '"@ + raw + "'"@,
            ParseFault::EmptyItc => "itc field is empty"@,
            ParseFault::InvalidParentHash(raw) => "invalid parent hash: '"@ + raw + "'"@,
            ParseFault::InvalidEventType(raw) => "unknown event type: '"@ + raw + "'"@,
            ParseFault::InvalidItemId(raw) => "invalid item ID: '"@ + raw + "'"@,
            ParseFault::InvalidDataJson(details) => "invalid data JSON: "@ + details,
            ParseFault::DataSchemaMismatch { event_type, details } => "data schema mismatch for "@
                + event_type + ": "@ + details,
            ParseFault::InvalidEventHash(raw) => "invalid event_hash format: '"@ + raw + "'"@,
            ParseFault::HashMismatch { expected, computed } => "event_hash mismatch: line has '"@
                + expected + "', computed '"@ + computed + "'"@,
            ParseFault::VersionMismatch(message) => "event log version mismatch: "@ + message,
        }
    }
}

/// Three texts, one after the other.
pub(crate) fn concat3(a: &str, b: &str, c: &str) -> (r: String)
    ensures
        r@ == a@ + b@ + c@,
{
    let mut s = a.to_owned();
    s.append(b);
    s.append(c);
    s
}

impl ParseError {
    /// Explains the error.
    pub fn to_string(&self) -> (r: String)
        ensures
            r@ == self@.text(),
    {
        match self {
            ParseError::FieldCount { found, expected } => {
                let mut s = concat3(
                    "expected ",
                    u64_text(*expected as u64).as_str(),
                    " tab-separated fields, found ",
                );
                s.append(u64_text(*found as u64).as_str());
                s
            },
            ParseError::InvalidTimestamp(raw) => concat3(
                "invalid wall_ts_us (not i64): '",
                raw.as_str(),
                "'",
            ),
            ParseError::InvalidAgent(raw) => concat3("invalid agent field: '", raw.as_str(), "'"),
            ParseError::EmptyItc => "itc field is empty".to_owned(),
            ParseError::InvalidParentHash(raw) => concat3(
                "invalid parent hash: '",
                raw.as_str(),
                "'",
            ),
            ParseError::InvalidEventType(raw) => concat3(
                "unknown event type: '",
                raw.as_str(),
                "'",
            ),
            ParseError::InvalidItemId(raw) => concat3("invalid item ID: '", raw.as_str(), "'"),
            ParseError::InvalidDataJson(details) => {
                let mut s = "invalid data JSON: ".to_owned();
                s.append(details.as_str());
                s
            },
            ParseError::DataSchemaMismatch { event_type, details } => {
                let mut s = concat3("data schema mismatch for ", event_type.as_str(), ": ");
                s.append(details.as_str());
                s
            },
            ParseError::InvalidEventHash(raw) => concat3(
                "invalid event_hash format: '",
                raw.as_str(),
                "'",
            ),
            ParseError::HashMismatch { expected, computed } => {
                let mut s = concat3(
                    "event_hash mismatch: line has '",
                    expected.as_str(),
                    "', computed '",
                );
                s.append(computed.as_str());
                s.append("'");
                s
            },
            ParseError::VersionMismatch(message) => {
                let mut s = "event log version mismatch: ".to_owned();
                s.append(message.as_str());
                s
            },
        }
    }
}

/// What a header says, or why it is not accepted.
pub open spec fn header_version(first_line: Seq<char>) -> Result<u32, Seq<char>> {
    let line = trim(first_line);
    if !starts_with(line, HEADER_PREFIX@) {
        Err(
            "Invalid event log header: expected '"@ + HEADER_PREFIX@ + "N', got '"@ + line
                + "'.\nThis file may not be a bones event log, or it may be from a version of bones that predates format versioning."@,
        )
    } else {
        let digits = line.skip(HEADER_PREFIX@.len() as int);
        match u32_value(digits) {
            None => Err(
                "Invalid version number '"@ + digits
                    + "' in event log header.\nExpected a positive integer after '"@
                    + HEADER_PREFIX@ + "'."@,
            ),
            Some(0) => Err(
                "Invalid version number '"@ + digits
                    + "' in event log header.\nExpected a positive integer after '"@
                    + HEADER_PREFIX@ + "'."@,
            ),
            Some(version) => if version > CURRENT_VERSION {
                Err(
                    "Event log version "@ + nat_text(version as nat)
                        + " is newer than this version of bones (supports up to v"@ + nat_text(
                        CURRENT_VERSION as nat,
                    )
                        + ").\nPlease upgrade bones: cargo install bones-cli\nOr download the latest release from: https://github.com/bobisme/bones/releases"@,
                )
            } else {
                Ok(version)
            },
        }
    }
}

/// Detects the format version from the first line of an event file, which
/// should be `# bones event log v<N>`.
///
/// The version is a positive integer of at most [`CURRENT_VERSION`]. A newer
/// version, a line that is no header and a version that is no positive integer
/// are refused with a text that says what to do.
pub fn detect_version(first_line: &str) -> (r: Result<u32, String>)
    ensures
        match r {
            Ok(version) => header_version(first_line@) == Ok::<u32, Seq<char>>(version),
            Err(message) => header_version(first_line@) == Err::<u32, Seq<char>>(message@),
        },
{
    let line = str_trim(first_line);
    let digits = match str_strip_prefix(line, HEADER_PREFIX) {
        Some(digits) => digits,
        None => {
            let mut message = concat3(
                "Invalid event log header: expected '",
                HEADER_PREFIX,
                "N', got '",
            );
            message.append(line);
            message.append(
                "'.\nThis file may not be a bones event log, or it may be from a version of bones that predates format versioning.",
            );
            return Err(message);
        },
    };
    match parse_u32(digits) {
        None | Some(0) => {
            let mut message = concat3(
                "Invalid version number '",
                digits,
                "' in event log header.\nExpected a positive integer after '",
            );
            message.append(HEADER_PREFIX);
            message.append("'.");
            Err(message)
        },
        Some(version) => {
            if version > CURRENT_VERSION {
                let mut message = concat3(
                    "Event log version ",
                    u64_text(version as u64).as_str(),
                    " is newer than this version of bones (supports up to v",
                );
                message.append(u64_text(CURRENT_VERSION as u64).as_str());
                message.append(
                    ").\nPlease upgrade bones: cargo install bones-cli\nOr download the latest release from: https://github.com/bobisme/bones/releases",
                );
                Err(message)
            } else {
                Ok(version)
            }
        },
    }
}

/// What a line of the log is.
#[derive(Debug, Clone, PartialEq, Eq)]
pub enum ParsedLine {
    /// A comment line, with the `#` that starts it.
    Comment(String),
    /// A blank or whitespace-only line.
    Blank,
    /// An event.
    Event(Box<Event>),
}

/// What a line of the log is, as plain values.
pub ghost enum LineView {
    Comment(Seq<char>),
    Blank,
    Event(EventView),
}

impl View for ParsedLine {
    type V = LineView;

    open spec fn view(&self) -> LineView {
        match self {
            ParsedLine::Comment(s) => LineView::Comment(s@),
            ParsedLine::Blank => LineView::Blank,
            ParsedLine::Event(e) => LineView::Event((*e)@),
        }
    }
}

/// The fields of an event line, borrowed from it. Only the timestamp and the
/// event type have been read.
#[derive(Clone, Copy, Debug, PartialEq, Eq)]
pub struct PartialEvent<'a> {
    /// Wall-clock timestamp in microseconds.
    pub wall_ts_us: i64,
    /// Agent identifier.
    pub agent: &'a str,
    /// Clock stamp.
    pub itc: &'a str,
    /// Raw parents field (comma-separated hashes or empty).
    pub parents_raw: &'a str,
    /// Event type.
    pub event_type: EventType,
    /// Raw item ID.
    pub item_id_raw: &'a str,
    /// Raw data JSON.
    pub data_raw: &'a str,
    /// Raw event hash.
    pub event_hash_raw: &'a str,
}

/// What a line is, as far as its fields can be taken apart.
#[derive(Clone, Copy, Debug, PartialEq, Eq)]
pub enum PartialParsedLine<'a> {
    /// A comment line.
    Comment(&'a str),
    /// A blank or whitespace-only line.
    Blank,
    /// The fields of an event.
    Event(PartialEvent<'a>),
}

/// The fields of an event line as plain values.
pub ghost struct PartialView {
    pub wall_ts_us: i64,
    pub event_type: EventType,
    pub fields: Seq<Seq<char>>,
}

/// What a line is, as far as its fields can be taken apart, as plain values.
pub ghost enum PartialLineView {
    Comment(Seq<char>),
    Blank,
    Event(PartialView),
}

impl<'a> View for PartialParsedLine<'a> {
    type V = PartialLineView;

    open spec fn view(&self) -> PartialLineView {
        match self {
            PartialParsedLine::Comment(s) => PartialLineView::Comment(s@),
            PartialParsedLine::Blank => PartialLineView::Blank,
            PartialParsedLine::Event(e) => PartialLineView::Event(
                PartialView {
                    wall_ts_us: e.wall_ts_us,
                    event_type: e.event_type,
                    fields: seq![
                        e.agent@,
                        e.itc@,
                        e.parents_raw@,
                        e.item_id_raw@,
                        e.data_raw@,
                        e.event_hash_raw@,
                    ],
                },
            ),
        }
    }
}

/// Whether a text is `blake3:` and at least one hexadecimal digit.
pub open spec fn hash_like(s: Seq<char>) -> bool {
    &&& starts_with(s, "blake3:"@)
    &&& s.len() > "blake3:"@.len()
    &&& forall|i: int| "blake3:"@.len() <= i < s.len() ==> hex_value(#[trigger] s[i]) is Some
}

/// Whether a text is `blake3:` and at least one hexadecimal digit.
pub fn is_valid_blake3_hash(s: &str) -> (r: bool)
    ensures
        r == hash_like(s@),
{
    let hex = match str_strip_prefix(s, "blake3:") {
        Some(hex) => hex,
        None => return false,
    };
    let ghost n = "blake3:"@.len();
    let digits = chars_of(hex);
    if digits.len() == 0 {
        assert(s@.len() == n);
        return false;
    }
    let mut i: usize = 0;
    while i < digits.len()
        invariant
            n == "blake3:"@.len(),
            n <= s@.len(),
            digits@ == s@.skip(n as int),
            i <= digits.len(),
            forall|k: int| n <= k < n + i ==> hex_value(#[trigger] s@[k]) is Some,
        decreases digits.len() - i,
    {
        let c = digits[i];
        assert(c == s@[n + i]);
        let is_hex = ('0' <= c && c <= '9') || ('a' <= c && c <= 'f') || ('A' <= c && c <= 'F');
        if !is_hex {
            assert(hex_value(s@[n + i]) is None);
            return false;
        }
        i += 1;
    }
    true
}

/// The first entry that is no hash.
pub open spec fn first_bad_hash(parts: Seq<Seq<char>>) -> Option<Seq<char>>
    decreases parts.len(),
{
    if parts.len() == 0 {
        None
    } else {
        match first_bad_hash(parts.drop_last()) {
            Some(bad) => Some(bad),
            None => if hash_like(parts.last()) {
                None
            } else {
                Some(parts.last())
            },
        }
    }
}

/// The hashes in a parents field.
pub open spec fn parent_list(raw: Seq<char>) -> Seq<Seq<char>> {
    if raw.len() == 0 {
        Seq::empty()
    } else {
        split_on(raw, ',')
    }
}

fn read_parents(raw: &str) -> (r: Result<Vec<String>, ParseError>)
    ensures
        match r {
            Ok(parents) => first_bad_hash(parent_list(raw@)) is None && string_views(parents@)
                == parent_list(raw@),
            Err(e) => first_bad_hash(parent_list(raw@)) is Some && e@
                == ParseFault::InvalidParentHash(first_bad_hash(parent_list(raw@))->0),
        },
{
    let mut parents: Vec<String> = Vec::new();
    if raw.is_empty() {
        assert(string_views(parents@) =~= Seq::empty());
        return Ok(parents);
    }
    let parts = split_char(raw, ',');
    let ghost all = views(parts@);
    let mut i: usize = 0;
    assert(all.take(0) =~= Seq::empty());
    while i < parts.len()
        invariant
            raw@.len() > 0,
            i <= parts.len(),
            all == views(parts@),
            all == split_on(raw@, ','),
            first_bad_hash(all.take(i as int)) is None,
            string_views(parents@) =~= all.take(i as int),
        decreases parts.len() - i,
    {
        let part = parts[i];
        proof {
            let next = all.take(i + 1);
            assert(next.drop_last() =~= all.take(i as int));
            assert(next.last() == part@);
        }
        if !is_valid_blake3_hash(part) {
            proof {
                lemma_first_bad_stays(all, i + 1);
            }
            return Err(ParseError::InvalidParentHash(part.to_owned()));
        }
        parents.push(part.to_owned());
        i += 1;
    }
    assert(all.take(i as int) =~= all);
    Ok(parents)
}

proof fn lemma_first_bad_stays(parts: Seq<Seq<char>>, n: int)
    requires
        0 <= n <= parts.len(),
        first_bad_hash(parts.take(n)) is Some,
    ensures
        first_bad_hash(parts) == first_bad_hash(parts.take(n)),
    decreases parts.len(),
{
    if n == parts.len() {
        assert(parts.take(n) =~= parts);
    } else {
        assert(parts.drop_last().take(n) =~= parts.take(n));
        lemma_first_bad_stays(parts.drop_last(), n);
    }
}

/// Whether an agent may stand in a line: it is not empty and holds no white space.
pub open spec fn agent_ok(agent: Seq<char>) -> bool {
    agent.len() > 0 && forall|i: int| 0 <= i < agent.len() ==> !is_space(#[trigger] agent[i])
}

/// The event that eight fields hold, given what their data field is as JSON and
/// the outline of its text. The hash is only held to its form.
pub open spec fn event_in_fields(
    fields: Seq<Seq<char>>,
    data: Result<JsonTree, Seq<char>>,
    outline: Seq<(Seq<char>, nat)>,
) -> Result<EventView, ParseFault> {
    if i64_value(fields[0]) is None {
        Err(ParseFault::InvalidTimestamp(fields[0]))
    } else if !agent_ok(fields[1]) {
        Err(ParseFault::InvalidAgent(fields[1]))
    } else if fields[2].len() == 0 {
        Err(ParseFault::EmptyItc)
    } else if first_bad_hash(parent_list(fields[3])) is Some {
        Err(ParseFault::InvalidParentHash(first_bad_hash(parent_list(fields[3]))->0))
    } else if EventType::named(fields[4]) is None {
        Err(ParseFault::InvalidEventType(fields[4]))
    } else if !valid_id(fields[5]) {
        Err(ParseFault::InvalidItemId(fields[5]))
    } else {
        let event_type = EventType::named(fields[4])->0;
        match data {
            Err(e) => Err(ParseFault::InvalidDataJson(e)),
            Ok(t) => match read_outlined(event_type, t, outline) {
                Err(e) => Err(
                    ParseFault::DataSchemaMismatch {
                        event_type: event_type.name(),
                        details: "invalid "@ + event_type.name() + " data payload: "@ + e,
                    },
                ),
                Ok(payload) => if !hash_like(fields[7]) {
                    Err(ParseFault::InvalidEventHash(fields[7]))
                } else {
                    Ok(
                        EventView {
                            wall_ts_us: i64_value(fields[0])->0,
                            agent: fields[1],
                            itc: fields[2],
                            parents: parent_list(fields[3]),
                            event_type,
                            item_id: fields[5],
                            data: payload,
                            event_hash: fields[7],
                        },
                    )
                },
            },
        }
    }
}

/// What is read as JSON in a text, or why it is none.
pub open spec fn json_in(text: Seq<char>) -> Result<JsonTree, Seq<char>> {
    match parsed_json(text) {
        Some(t) => Ok(t),
        None => Err(json_error(text)),
    }
}

/// What reading a JSON text gave, as plain values.
pub open spec fn json_result(data: Result<JsonValue, String>) -> Result<JsonTree, Seq<char>> {
    match data {
        Ok(v) => Ok(v.tree()),
        Err(e) => Err(e@),
    }
}

/// Whether an event's hash is the one that its fields have.
pub open spec fn with_hash(event: EventView, computed: Seq<char>) -> Result<EventView, ParseFault> {
    if event.event_hash == computed {
        Ok(event)
    } else {
        Err(ParseFault::HashMismatch { expected: event.event_hash, computed })
    }
}

/// The fields that are hashed: the raw ones, with the data in canonical form.
pub open spec fn hashed_fields(fields: Seq<Seq<char>>, data: JsonTree) -> Seq<Seq<char>> {
    fields.take(6).push(canonical_text(data))
}

/// The event that a line holds, or why the line is not accepted.
pub open spec fn read_event_line(
    fields: Seq<Seq<char>>,
    data: Result<JsonTree, Seq<char>>,
    outline: Seq<(Seq<char>, nat)>,
) -> Result<EventView, ParseFault> {
    match event_in_fields(fields, data, outline) {
        Ok(event) => with_hash(event, line_hash(hashed_fields(fields, data->Ok_0))),
        Err(e) => Err(e),
    }
}

/// What a line is, or why it is not accepted.
pub open spec fn read_line(line: Seq<char>) -> Result<LineView, ParseFault> {
    let trimmed = strip_line_end(line);
    let fields = split_on(trimmed, '\t');
    if starts_with_char(trimmed, '#') {
        Ok(LineView::Comment(trimmed))
    } else if trim(trimmed).len() == 0 {
        Ok(LineView::Blank)
    } else if fields.len() != 8 {
        Err(ParseFault::FieldCount { found: fields.len(), expected: 8 })
    } else {
        match read_event_line(fields, json_in(fields[6]), outline_in(fields[6])) {
            Ok(event) => Ok(LineView::Event(event)),
            Err(e) => Err(e),
        }
    }
}

/// What a line is, as far as its fields can be taken apart.
pub open spec fn read_line_partial(line: Seq<char>) -> Result<PartialLineView, ParseFault> {
    let trimmed = strip_line_end(line);
    let fields = split_on(trimmed, '\t');
    if starts_with_char(trimmed, '#') {
        Ok(PartialLineView::Comment(trimmed))
    } else if trim(trimmed).len() == 0 {
        Ok(PartialLineView::Blank)
    } else if fields.len() != 8 {
        Err(ParseFault::FieldCount { found: fields.len(), expected: 8 })
    } else if i64_value(fields[0]) is None {
        Err(ParseFault::InvalidTimestamp(fields[0]))
    } else if EventType::named(fields[4]) is None {
        Err(ParseFault::InvalidEventType(fields[4]))
    } else {
        Ok(
            PartialLineView::Event(
                PartialView {
                    wall_ts_us: i64_value(fields[0])->0,
                    event_type: EventType::named(fields[4])->0,
                    fields: seq![fields[1], fields[2], fields[3], fields[5], fields[6], fields[7]],
                },
            ),
        )
    }
}

/// Takes a line apart without reading the JSON payload or checking the hash.
///
/// The line must have eight fields, an integer timestamp and a known event
/// type. Nothing else is checked.
pub fn parse_line_partial(line: &str) -> (r: Result<PartialParsedLine<'_>, ParseError>)
    ensures
        match r {
            Ok(parsed) => read_line_partial(line@) == Ok::<PartialLineView, ParseFault>(parsed@),
            Err(e) => read_line_partial(line@) == Err::<PartialLineView, ParseFault>(e@),
        },
{
    let trimmed = str_strip_line_end(line);
    if str_starts_with_char(trimmed, '#') {
        return Ok(PartialParsedLine::Comment(trimmed));
    }
    if str_trim(trimmed).is_empty() {
        return Ok(PartialParsedLine::Blank);
    }
    let fields = split_char(trimmed, '\t');
    let ghost all = split_on(trimmed@, '\t');
    assert(views(fields@).len() == fields.len());
    if fields.len() != 8 {
        return Err(ParseError::FieldCount { found: fields.len(), expected: 8 });
    }
    assert forall|i: int| 0 <= i < 8 implies (#[trigger] fields@[i])@ == all[i] by {
        assert(views(fields@)[i] == fields@[i]@);
    }
    let wall_ts_us = match parse_i64(fields[0]) {
        Some(n) => n,
        None => return Err(ParseError::InvalidTimestamp(fields[0].to_owned())),
    };
    let event_type = match EventType::from_name(fields[4]) {
        Some(event_type) => event_type,
        None => return Err(ParseError::InvalidEventType(fields[4].to_owned())),
    };
    Ok(
        PartialParsedLine::Event(
            PartialEvent {
                wall_ts_us,
                agent: fields[1],
                itc: fields[2],
                parents_raw: fields[3],
                event_type,
                item_id_raw: fields[5],
                data_raw: fields[6],
                event_hash_raw: fields[7],
            },
        ),
    )
}

/// Decides whether an agent may stand in a line.
fn is_agent(agent: &str) -> (r: bool)
    ensures
        r == agent_ok(agent@),
{
    let chars = chars_of(agent);
    let mut i: usize = 0;
    while i < chars.len()
        invariant
            chars@ == agent@,
            i <= chars.len(),
            forall|k: int| 0 <= k < i ==> !is_space(#[trigger] agent@[k]),
        decreases chars.len() - i,
    {
        if char_is_space(chars[i]) {
            assert(is_space(agent@[i as int]));
            return false;
        }
        i += 1;
    }
    chars.len() > 0
}

/// Makes an event of eight fields, given what their data field is as JSON and the
/// outline of its text. The hash is only held to its form.
pub fn event_from_fields(
    fields: &Vec<&str>,
    data: &Result<JsonValue, String>,
    outline: &Vec<(String, usize)>,
) -> (r: Result<Event, ParseError>)
    requires
        fields.len() == 8,
    ensures
        match r {
            Ok(event) => event_in_fields(views(fields@), json_result(*data), outline_view(outline@))
                == Ok::<EventView, ParseFault>(event@),
            Err(e) => event_in_fields(views(fields@), json_result(*data), outline_view(outline@))
                == Err::<EventView, ParseFault>(e@),
        },
{
    let ghost all = views(fields@);
    assert forall|i: int| 0 <= i < 8 implies (#[trigger] fields@[i])@ == all[i] by {
        assert(views(fields@)[i] == fields@[i]@);
    }
    let wall_ts_us = match parse_i64(fields[0]) {
        Some(n) => n,
        None => return Err(ParseError::InvalidTimestamp(fields[0].to_owned())),
    };
    let agent = fields[1];
    if !is_agent(agent) {
        return Err(ParseError::InvalidAgent(agent.to_owned()));
    }
    let itc = fields[2];
    if itc.is_empty() {
        return Err(ParseError::EmptyItc);
    }
    let parents = match read_parents(fields[3]) {
        Ok(parents) => parents,
        Err(e) => return Err(e),
    };
    let event_type = match EventType::from_name(fields[4]) {
        Some(event_type) => event_type,
        None => return Err(ParseError::InvalidEventType(fields[4].to_owned())),
    };
    let item_id = match ItemId::parse(fields[5]) {
        Some(id) => id,
        None => return Err(ParseError::InvalidItemId(fields[5].to_owned())),
    };
    let value = match data {
        Ok(value) => value,
        Err(e) => return Err(ParseError::InvalidDataJson(e.clone())),
    };
    let payload = match EventData::from_outlined(event_type, value, outline) {
        Ok(payload) => payload,
        Err(e) => return Err(
            ParseError::DataSchemaMismatch {
                event_type: event_type.to_string(),
                details: e.to_string(),
            },
        ),
    };
    let event_hash = fields[7];
    if !is_valid_blake3_hash(event_hash) {
        return Err(ParseError::InvalidEventHash(event_hash.to_owned()));
    }
    Ok(
        Event {
            wall_ts_us,
            agent: agent.to_owned(),
            itc: itc.to_owned(),
            parents,
            event_type,
            item_id,
            data: payload,
            event_hash: event_hash.to_owned(),
        },
    )
}

/// Holds an event's hash against the one that was computed from its fields.
pub fn checked_event(event: Event, computed: String) -> (r: Result<Event, ParseError>)
    ensures
        match r {
            Ok(checked) => checked == event && with_hash(event@, computed@) == Ok::<
                EventView,
                ParseFault,
            >(event@),
            Err(e) => with_hash(event@, computed@) == Err::<EventView, ParseFault>(e@),
        },
{
    if str_eq(computed.as_str(), event.event_hash.as_str()) {
        Ok(event)
    } else {
        Err(ParseError::HashMismatch { expected: event.event_hash, computed })
    }
}

/// Whether a line has the fields of an event and these are read as that event.
spec fn written_line(line: Seq<char>, event: EventView) -> bool {
    &&& !starts_with_char(line, '#')
    &&& trim(line).len() > 0
    &&& split_on(line, '\t') == event.fields().push(event.event_hash)
    &&& plain(event.data.tree(), depth_limit())
    &&& read_event_line(
        event.fields().push(event.event_hash),
        Ok(event.data.tree()),
        outline_of(event.data.tree()),
    ) == Ok::<EventView, ParseFault>(event)
}

/// A written line is read as its event, once its data field is read as JSON.
proof fn lemma_written_line_is_read(line: Seq<char>, event: EventView)
    requires
        written_line(strip_line_end(line), event),
        json_in(canonical_text(event.data.tree())) == Ok::<JsonTree, Seq<char>>(event.data.tree()),
        outline_in(canonical_text(event.data.tree())) == outline_of(event.data.tree()),
    ensures
        read_line(line) == Ok::<LineView, ParseFault>(LineView::Event(event)),
{
    let fields = split_on(strip_line_end(line), '\t');
    assert(fields.len() == 8);
    assert(fields[6] == canonical_text(event.data.tree()));
}

/// Reads and checks a line.
///
/// An event line has eight fields: an integer timestamp, an agent without
/// white space, a clock stamp that is not empty, `blake3:<hex>` parents
/// or none, a known event type, a valid item ID, JSON that fits the event type,
/// and the hash of the other fields. The line of an event that can be written is
/// read as that event, with or without a line end.
#[verifier::spinoff_prover]
pub fn parse_line(line: &str) -> (r: Result<ParsedLine, ParseError>)
    ensures
        match r {
            Ok(parsed) => read_line(line@) == Ok::<LineView, ParseFault>(parsed@),
            Err(e) => read_line(line@) == Err::<LineView, ParseFault>(e@),
        },
        forall|event: EventView| #[trigger]
            event.writable() && event.stands_in(line@) ==> r is Ok && r->Ok_0@ == LineView::Event(
                event,
            ),
{
    proof {
        assert forall|event: EventView| #[trigger]
            event.writable() && event.stands_in(line@) implies written_line(strip_line_end(line@), event) by {
            written_event_is_read(event);
        }
    }
    let trimmed = str_strip_line_end(line);
    if str_starts_with_char(trimmed, '#') {
        return Ok(ParsedLine::Comment(trimmed.to_owned()));
    }
    if str_trim(trimmed).is_empty() {
        return Ok(ParsedLine::Blank);
    }
    let fields = split_char(trimmed, '\t');
    let ghost all = split_on(trimmed@, '\t');
    assert(views(fields@).len() == fields.len());
    if fields.len() != 8 {
        return Err(ParseError::FieldCount { found: fields.len(), expected: 8 });
    }
    assert forall|i: int| 0 <= i < 8 implies (#[trigger] fields@[i])@ == all[i] by {
        assert(views(fields@)[i] == fields@[i]@);
    }
    let data = parse_json(fields[6]);
    let members = outline(fields[6]);
    assert(json_result(data) == json_in(all[6]));
    proof {
        assert forall|event: EventView| #[trigger] written_line(trimmed@, event) implies read_line(
            line@,
        ) == Ok::<LineView, ParseFault>(LineView::Event(event)) by {
            assert(all[6] == canonical_text(event.data.tree()));
            lemma_written_line_is_read(line@, event);
        }
    }
    let event = match event_from_fields(&fields, &data, &members) {
        Ok(event) => event,
        Err(e) => return Err(e),
    };
    let canonical_data = match &data {
        Ok(value) => canonicalize_json(value),
        Err(_) => String::new(),
    };
    let hashed: Vec<&str> = vec![
        fields[0],
        fields[1],
        fields[2],
        fields[3],
        fields[4],
        fields[5],
        canonical_data.as_str(),
    ];
    assert(views(hashed@) =~= hashed_fields(all, json_in(all[6])->Ok_0));
    let computed = hash_fields(&hashed);
    match checked_event(event, computed) {
        Ok(event) => Ok(ParsedLine::Event(Box::new(event))),
        Err(e) => Err(e),
    }
}

/// What has been read of a file so far.
pub ghost struct Progress {
    /// Whether a header has been seen.
    pub version_checked: bool,
    /// The events, in the order of their lines.
    pub events: Seq<EventView>,
}

/// What has been read of a file after one more line.
pub open spec fn after_line(progress: Progress, line: Seq<char>) -> Result<Progress, ParseFault> {
    if !progress.version_checked && starts_with(trim_start(line), HEADER_PREFIX@) {
        match header_version(line) {
            Ok(_) => Ok(Progress { version_checked: true, ..progress }),
            Err(message) => Err(ParseFault::VersionMismatch(message)),
        }
    } else {
        match read_line(line) {
            Ok(LineView::Event(event)) => Ok(
                Progress { events: progress.events.push(event), ..progress },
            ),
            Ok(_) => Ok(progress),
            Err(ParseFault::InvalidEventType(_)) => Ok(progress),
            Err(e) => Err(e),
        }
    }
}

/// What has been read after some lines, or the number of the first line that
/// is not accepted and why.
pub open spec fn after_lines(file: Seq<Seq<char>>) -> Result<Progress, (nat, ParseFault)>
    decreases file.len(),
{
    if file.len() == 0 {
        Ok(Progress { version_checked: false, events: Seq::empty() })
    } else {
        match after_lines(file.drop_last()) {
            Err(e) => Err(e),
            Ok(progress) => match after_line(progress, file.last()) {
                Ok(next) => Ok(next),
                Err(e) => Err((file.len(), e)),
            },
        }
    }
}

proof fn lemma_error_stays(file: Seq<Seq<char>>, n: int)
    requires
        0 <= n <= file.len(),
        after_lines(file.take(n)) is Err,
    ensures
        after_lines(file) == after_lines(file.take(n)),
    decreases file.len(),
{
    if n == file.len() {
        assert(file.take(n) =~= file);
    } else {
        assert(file.drop_last().take(n) =~= file.take(n));
        lemma_error_stays(file.drop_last(), n);
    }
}

/// Whether each of some lines that is the line of an event is read as that event.
spec fn events_are_read(file: Seq<Seq<char>>) -> bool {
    forall|i: int, event: EventView|
        #![trigger file[i], event.writable()]
        0 <= i < file.len() && event.writable() && file[i] == event.line() ==> read_line(file[i])
            == Ok::<LineView, ParseFault>(LineView::Event(event))
}

/// What has been read of a log after its header and some of its events.
proof fn lemma_log_is_read(events: Seq<EventView>, n: int)
    requires
        loggable(events),
        0 <= n <= log_lines(events).len(),
        events_are_read(log_lines(events).take(n)),
    ensures
        after_lines(log_lines(events).take(n)) == Ok::<Progress, (nat, ParseFault)>(
            Progress {
                version_checked: n > 0,
                events: if n < 2 {
                    Seq::empty()
                } else {
                    events.take(n - 2)
                },
            },
        ),
    decreases n,
{
    let all = log_lines(events);
    let file = all.take(n);
    if n > 0 {
        let front = all.take(n - 1);
        assert(file.drop_last() =~= front);
        assert forall|i: int, event: EventView|
            #![trigger front[i], event.writable()]
            0 <= i < front.len() && event.writable() && front[i] == event.line() implies read_line(
            front[i],
        ) == Ok::<LineView, ParseFault>(LineView::Event(event)) by {
            assert(file[i] == front[i]);
        }
        lemma_log_is_read(events, n - 1);
        if n == 1 {
            assert(file.last() == SHARD_HEADER@);
            lemma_header_is_read();
        } else if n == 2 {
            assert(file.last() == crate::event::writer::FIELD_COMMENT@);
            lemma_field_comment_is_skipped();
            assert(events.take(0) =~= Seq::empty());
        } else {
            let event = events[n - 3];
            assert(file[n - 1] == event.line());
            assert(event.writable());
            assert(events.take(n - 3).push(event) =~= events.take(n - 2));
        }
    }
}

proof fn lemma_more_are_read(file: Seq<Seq<char>>, i: int)
    requires
        0 <= i < file.len(),
        events_are_read(file.take(i)),
        forall|event: EventView| #[trigger]
            event.writable() && file[i] == event.line() ==> read_line(file[i]) == Ok::<
                LineView,
                ParseFault,
            >(LineView::Event(event)),
    ensures
        events_are_read(file.take(i + 1)),
{
    let before = file.take(i);
    let next = file.take(i + 1);
    assert forall|k: int, event: EventView|
        #![trigger next[k], event.writable()]
        0 <= k < next.len() && event.writable() && next[k] == event.line() implies read_line(next[k])
        == Ok::<LineView, ParseFault>(LineView::Event(event)) by {
        if k < i {
            assert(before[k] == next[k]);
        }
    }
}

/// A text of which some lines are not accepted is not the log of any events.
proof fn lemma_refused_is_no_log(text: Seq<char>, n: int)
    requires
        0 <= n <= lines(text).len(),
        events_are_read(lines(text).take(n)),
        after_lines(lines(text).take(n)) is Err,
    ensures
        forall|log: Seq<EventView>| #[trigger] loggable(log) ==> text != log_text(log),
{
    assert forall|log: Seq<EventView>| #[trigger] loggable(log) implies text != log_text(log) by {
        if text == log_text(log) {
            log_is_made_of_lines(log);
            lemma_log_is_read(log, n);
        }
    }
}

proof fn lemma_header_is_read()
    ensures
        starts_with(trim_start(SHARD_HEADER@), HEADER_PREFIX@),
        header_version(SHARD_HEADER@) == Ok::<u32, Seq<char>>(1),
{
    reveal_strlit("# bones event log v1");
    reveal_strlit("# bones event log v");
    let line = SHARD_HEADER@;
    assert(trim_start(line) == line);
    assert(trim_end(line) == line);
    assert(line.take(HEADER_PREFIX@.len() as int) =~= HEADER_PREFIX@);
    let digits = line.skip(HEADER_PREFIX@.len() as int);
    assert(digits =~= nat_text(1));
    int_text_reads_back(1);
}

proof fn lemma_field_comment_is_skipped()
    ensures
        ({
            let line = crate::event::writer::FIELD_COMMENT@;
            read_line(line) == Ok::<LineView, ParseFault>(LineView::Comment(line))
        }),
{
    reveal_strlit(
        "# fields: wall_ts_us\tagent\titc\tparents\ttype\titem_id\tdata\tevent_hash",
    );
    let line = crate::event::writer::FIELD_COMMENT@;
    assert(strip_line_end(line) == line);
}

/// The header of a log is accepted as version one, and a log that holds it alone
/// has no event.
pub proof fn header_alone_is_read()
    ensures
        header_version(SHARD_HEADER@) == Ok::<u32, Seq<char>>(1),
        after_lines(lines(log_text(Seq::empty()))) == Ok::<Progress, (nat, ParseFault)>(
            Progress { version_checked: true, events: Seq::empty() },
        ),
{
    let none = Seq::<EventView>::empty();
    lemma_header_is_read();
    log_is_made_of_lines(none);
    let file = log_lines(none);
    assert(file.take(2) =~= file);
    assert forall|i: int, event: EventView|
        #![trigger file[i], event.writable()]
        0 <= i < file.len() && event.writable() && file[i] == event.line() implies read_line(file[i])
        == Ok::<LineView, ParseFault>(LineView::Event(event)) by {
        lemma_no_header(event);
        reveal_strlit("# bones event log v1");
        reveal_strlit(
            "# fields: wall_ts_us\tagent\titc\tparents\ttype\titem_id\tdata\tevent_hash",
        );
    }
    lemma_log_is_read(none, 2);
    assert(none.take(0) =~= none);
}

/// Reading a line in full and taking it apart agree. A line read as an event is
/// taken apart into what the event holds. Comments, blank lines, lines with
/// another number of fields and lines with a bad timestamp are told alike. What
/// cannot be taken apart is not read.
pub proof fn partial_line_agrees(line: Seq<char>)
    ensures
        read_line(line) matches Ok(LineView::Event(e)) ==> read_line_partial(line) == Ok::<
            PartialLineView,
            ParseFault,
        >(
            PartialLineView::Event(
                PartialView {
                    wall_ts_us: e.wall_ts_us,
                    event_type: e.event_type,
                    fields: seq![
                        e.agent,
                        e.itc,
                        join(e.parents, seq![',']),
                        e.item_id,
                        split_on(strip_line_end(line), '\t')[6],
                        e.event_hash,
                    ],
                },
            ),
        ),
        read_line(line) matches Ok(LineView::Comment(s)) ==> read_line_partial(line) == Ok::<
            PartialLineView,
            ParseFault,
        >(PartialLineView::Comment(s)),
        read_line_partial(line) matches Ok(PartialLineView::Comment(s)) ==> read_line(line) == Ok::<
            LineView,
            ParseFault,
        >(LineView::Comment(s)),
        read_line(line) == Ok::<LineView, ParseFault>(LineView::Blank) <==> read_line_partial(line)
            == Ok::<PartialLineView, ParseFault>(PartialLineView::Blank),
        read_line(line) matches Err(e) ==> e is FieldCount || e is InvalidTimestamp
            ==> read_line_partial(line) == Err::<PartialLineView, ParseFault>(e),
        read_line_partial(line) matches Err(e) ==> e is FieldCount || e is InvalidTimestamp
            ==> read_line(line) == Err::<LineView, ParseFault>(e),
        read_line_partial(line) is Err ==> read_line(line) is Err,
{
    let fields = split_on(strip_line_end(line), '\t');
    if read_line(line) matches Ok(LineView::Event(_)) {
        if fields[3].len() > 0 {
            join_undoes_split(fields[3], ',');
        } else {
            assert(fields[3] =~= join(parent_list(fields[3]), seq![',']));
        }
    }
}

/// Reads the events of a file.
///
/// Comments, blank lines and lines with an unknown event type are skipped: an
/// event type may be added without a new format version. The first line that
/// looks like a header must have a version that this crate reads. Reading stops
/// at the first line that is not accepted, with its number counted from one. A
/// log of events that can be written is read as those events.
pub fn parse_lines(input: &str) -> (r: Result<Vec<Event>, (usize, ParseError)>)
    ensures
        match r {
            Ok(events) => after_lines(lines(input@)) is Ok && after_lines(
                lines(input@),
            )->Ok_0.events == event_views(events@),
            Err((line_no, e)) => after_lines(lines(input@)) == Err::<Progress, (nat, ParseFault)>(
                (line_no as nat, e@),
            ),
        },
        forall|log: Seq<EventView>| #[trigger]
            loggable(log) && input@ == log_text(log) ==> r is Ok && event_views(r->Ok_0@) == log,
{
    proof {
        assert forall|log: Seq<EventView>| #[trigger]
            loggable(log) && input@ == log_text(log) implies lines(input@) == log_lines(log) by {
            log_is_made_of_lines(log);
        }
    }
    let file = str_lines(input);
    let ghost all = lines(input@);
    let mut events: Vec<Event> = Vec::new();
    let mut version_checked = false;
    let mut i: usize = 0;
    assert(all.take(0) =~= Seq::empty());
    assert(event_views(events@) =~= Seq::empty());
    while i < file.len()
        invariant
            i <= file.len(),
            all == lines(input@),
            string_views(file@) == all,
            after_lines(all.take(i as int)) == Ok::<Progress, (nat, ParseFault)>(
                Progress { version_checked, events: event_views(events@) },
            ),
            events_are_read(all.take(i as int)),
            forall|log: Seq<EventView>| #[trigger]
                loggable(log) && input@ == log_text(log) ==> all == log_lines(log),
        decreases file.len() - i,
    {
        let line = file[i].as_str();
        let ghost next = all.take(i + 1);
        let ghost before = Progress { version_checked, events: event_views(events@) };
        proof {
            assert(next.drop_last() =~= all.take(i as int));
            assert(next.last() == all[i as int]);
            assert(string_views(file@)[i as int] == line@);
            if after_lines(next) is Err {
                lemma_error_stays(all, i + 1);
            }
        }
        if !version_checked && str_starts_with(str_trim_start(line), HEADER_PREFIX) {
            version_checked = true;
            proof {
                assert forall|event: EventView| #[trigger]
                    event.writable() && all[i as int] == event.line() implies read_line(line@)
                    == Ok::<LineView, ParseFault>(LineView::Event(event)) by {
                    lemma_no_header(event);
                    reveal_strlit("# bones event log v");
                    assert(line@.take(HEADER_PREFIX@.len() as int)[0] == line@[0]);
                }
                lemma_more_are_read(all, i as int);
            }
            if let Err(message) = detect_version(line) {
                proof {
                    lemma_refused_is_no_log(input@, i + 1);
                }
                return Err((i + 1, ParseError::VersionMismatch(message)));
            }
        } else {
            let parsed = parse_line(line);
            proof {
                lemma_more_are_read(all, i as int);
            }
            match parsed {
                Ok(ParsedLine::Event(event)) => {
                    let ghost earlier = events@;
                    events.push(*event);
                    assert(event_views(events@) =~= event_views(earlier).push((*event)@));
                },
                Ok(_) => {},
                Err(ParseError::InvalidEventType(_)) => {},
                Err(e) => {
                    proof {
                        lemma_refused_is_no_log(input@, i + 1);
                    }
                    return Err((i + 1, e));
                },
            }
        }
        i += 1;
    }
    assert(all.take(i as int) =~= all);
    proof {
        assert forall|log: Seq<EventView>| #[trigger]
            loggable(log) && input@ == log_text(log) implies event_views(events@) == log by {
            assert(all.take(log_lines(log).len() as int) =~= all);
            lemma_log_is_read(log, log_lines(log).len() as int);
            assert(log.take(log.len() as int) =~= log);
        }
    }
    Ok(events)
}

/// A header is not read as an event.
proof fn lemma_header_is_no_event(line: Seq<char>)
    requires
        starts_with(trim_start(line), HEADER_PREFIX@),
    ensures
        !(read_line(line) matches Ok(LineView::Event(_))),
{
    reveal_strlit("# bones event log v");
    let start = trim_start(line);
    assert(start.take(HEADER_PREFIX@.len() as int)[0] == start[0]);
    assert(start[0] == '#');
    if read_line(line) matches Ok(LineView::Event(_)) {
        let trimmed = strip_line_end(line);
        let fields = split_on(trimmed, '\t');
        assert(i64_value(fields[0]) is Some);
        lemma_first_field(trimmed);
        lemma_strip_keeps_start(line);
        assert(fields[0].len() > 0);
        assert(fields[0][0] == line[0]);
        if line[0] == '#' {
            assert(starts_with_char(trimmed, '#'));
        } else {
            assert(is_space(line[0]));
        }
    }
}

proof fn lemma_first_field(s: Seq<char>)
    ensures
        split_on(s, '\t').len() > 0,
        split_on(s, '\t').len() == 1 ==> split_on(s, '\t')[0] == s,
        split_on(s, '\t')[0].len() > 0 ==> s.len() > 0 && split_on(s, '\t')[0][0] == s[0],
    decreases s.len(),
{
    if s.len() > 0 {
        lemma_first_field(s.drop_last());
        assert(s.drop_last().push(s.last()) =~= s);
    } else {
        assert(s =~= Seq::empty());
    }
}

proof fn lemma_strip_keeps_start(line: Seq<char>)
    ensures
        strip_line_end(line).len() > 0 ==> line.len() > 0 && strip_line_end(line)[0] == line[0],
{
    lemma_trim_keeps_start(line, '\n');
    lemma_trim_keeps_start(trim_end_char(line, '\n'), '\r');
}

proof fn lemma_trim_keeps_start(s: Seq<char>, c: char)
    ensures
        trim_end_char(s, c).len() > 0 ==> s.len() > 0 && trim_end_char(s, c)[0] == s[0],
    decreases s.len(),
{
    if s.len() > 0 && s.last() == c {
        lemma_trim_keeps_start(s.drop_last(), c);
    }
}

proof fn lemma_lines_in_parts(seen: Seq<Seq<char>>, rest: Seq<Seq<char>>)
    requires
        after_lines(seen + rest) is Ok,
        after_lines(rest) is Ok,
    ensures
        after_lines(seen) is Ok,
        after_lines(seen + rest)->Ok_0 == (Progress {
            version_checked: after_lines(seen)->Ok_0.version_checked || after_lines(
                rest,
            )->Ok_0.version_checked,
            events: after_lines(seen)->Ok_0.events + after_lines(rest)->Ok_0.events,
        }),
    decreases rest.len(),
{
    let whole = seen + rest;
    if rest.len() == 0 {
        assert(whole =~= seen);
        assert(after_lines(seen)->Ok_0.events + Seq::<EventView>::empty() =~= after_lines(
            seen,
        )->Ok_0.events);
    } else {
        let front = rest.drop_last();
        let line = rest.last();
        assert(whole.drop_last() =~= seen + front);
        assert(whole.last() == line);
        lemma_lines_in_parts(seen, front);
        if starts_with(trim_start(line), HEADER_PREFIX@) {
            lemma_header_is_no_event(line);
        }
        let first = after_lines(seen)->Ok_0.events;
        let second = after_lines(front)->Ok_0.events;
        if let Ok(LineView::Event(event)) = read_line(line) {
            assert((first + second).push(event) =~= first + second.push(event));
        }
    }
}

/// A log that is read in parts, each of whole lines, gives the events of the
/// whole log, part by part. Where one part has been read, only the rest needs to
/// be.
pub proof fn log_is_read_in_parts(seen: Seq<char>, rest: Seq<char>)
    requires
        seen.len() == 0 || seen.last() == '\n',
        after_lines(lines(seen + rest)) is Ok,
        after_lines(lines(rest)) is Ok,
    ensures
        after_lines(lines(seen)) is Ok,
        after_lines(lines(seen + rest))->Ok_0.events == after_lines(lines(seen))->Ok_0.events
            + after_lines(lines(rest))->Ok_0.events,
{
    lines_of_joined(seen, rest);
    lemma_lines_in_parts(lines(seen), lines(rest));
}

}
