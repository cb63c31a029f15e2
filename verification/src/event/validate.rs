//! Checking event log files.
//!
//! A line is checked for its shape, its payload and its hash. A file is checked
//! against its manifest, for its encoding and for a cut-off end, and then line
//! by line; a bad line does not stop the check.

use crate::event::hash_text::{blake3_digest, digest, encode_hex, hex_text};
use crate::event::json::{ascending, place};
use crate::event::parser::{concat3, parse_line, read_line, ParseError, ParseFault};
use crate::event::roundtrip::written_event_is_read;
use crate::event::EventView;
use crate::shard::ShardManifest;
use crate::text::decimal::{nat_text, u64_text};
use crate::text::slice::{
    holds, lines, split_char, split_on, starts_with_char, str_eq, str_lines,
    str_starts_with_char, str_strip_line_end, str_trim, string_views, strip_line_end, strip_one_cr,
    trim, trim_end, trim_start, views,
};
use crate::text::utf8::{utf8_error, utf8_text};
use vstd::prelude::*;
use vstd::utf8::{decode_utf8, encode_utf8, encode_utf8_decode_utf8, valid_utf8};

verus! {

/// The most bytes that the JSON payload of an event may have.
pub const MAX_PAYLOAD_BYTES: usize = 1_048_576;

/// Category of a validation failure.
#[derive(Clone, Copy, Debug, PartialEq, Eq, Structural)]
pub enum ValidationErrorKind {
    /// The `wall_ts_us` field is not a valid integer.
    MalformedTimestamp,
    /// The event type is not a known `item.<verb>`.
    UnknownEventType,
    /// The `item_id` field is not a valid ID.
    InvalidItemId,
    /// The data field is not JSON or does not match the event type.
    InvalidJson,
    /// The JSON payload exceeds [`MAX_PAYLOAD_BYTES`].
    OversizedPayload,
    /// A required field is missing from the event line.
    MissingField,
    /// The recomputed hash does not match `event_hash`.
    HashChainBroken,
    /// The file ends in the middle of a line.
    TruncatedFile,
    /// The file is not valid UTF-8.
    InvalidUtf8,
    /// Wrong number of tab-separated fields.
    BadFieldCount,
    /// The `event_hash` field is not `blake3:<hex>`.
    InvalidHashFormat,
    /// The `agent` field is empty or invalid.
    InvalidAgent,
    /// The `itc` field is empty.
    EmptyItc,
    /// A parent hash has an invalid format.
    InvalidParentHash,
    /// The hash of the file does not match the manifest.
    ManifestMismatch,
    /// The number of events in the file does not match the manifest.
    ManifestCountMismatch,
    /// The length of the file does not match the manifest.
    ManifestSizeMismatch,
    /// The file was written by a newer version.
    UnsupportedVersion,
}

/// A single validation failure.
#[derive(Debug, Clone, PartialEq, Eq)]
pub struct ValidationError {
    /// Line number in the file, counted from one; zero for the file itself.
    pub line_num: usize,
    /// The category of the failure.
    pub kind: ValidationErrorKind,
    /// What went wrong.
    pub message: String,
    /// The line, cut after 256 characters.
    pub raw_line: Option<String>,
}

/// A single validation failure as plain values.
pub ghost struct ErrorView {
    pub line_num: nat,
    pub kind: ValidationErrorKind,
    pub message: Seq<char>,
    pub raw_line: Option<Seq<char>>,
}

impl View for ValidationError {
    type V = ErrorView;

    open spec fn view(&self) -> ErrorView {
        ErrorView {
            line_num: self.line_num as nat,
            kind: self.kind,
            message: self.message@,
            raw_line: crate::text::slice::opt_view(self.raw_line),
        }
    }
}

/// The views of a sequence of failures.
pub open spec fn error_views(errors: Seq<ValidationError>) -> Seq<ErrorView> {
    errors.map_values(|e: ValidationError| e@)
}

/// What was found in a file.
#[derive(Debug, Clone, PartialEq, Eq)]
pub struct ValidationReport {
    /// Number of event lines that passed validation.
    pub passed: usize,
    /// Number of failures, in lines and of the file itself.
    pub failed: usize,
    /// The failures.
    pub errors: Vec<ValidationError>,
    /// Path of the file.
    pub shard_path: String,
    /// Whether the file ends in the middle of a line.
    pub truncated: bool,
}

/// What was found in a file, as plain values.
pub ghost struct ReportView {
    pub passed: nat,
    pub failed: nat,
    pub errors: Seq<ErrorView>,
    pub truncated: bool,
}

impl ReportView {
    /// Whether nothing is wrong.
    pub open spec fn clean(self) -> bool {
        self.failed == 0 && !self.truncated
    }
}

impl View for ValidationReport {
    type V = ReportView;

    open spec fn view(&self) -> ReportView {
        ReportView {
            passed: self.passed as nat,
            failed: self.failed as nat,
            errors: error_views(self.errors@),
            truncated: self.truncated,
        }
    }
}

impl ValidationReport {
    /// Whether the file passed all checks.
    #[must_use]
    pub fn is_ok(&self) -> (r: bool)
        ensures
            r == (self.failed == 0 && !self.truncated),
            r == self@.clean(),
    {
        self.failed == 0 && !self.truncated
    }

    /// Passed and failed together.
    #[must_use]
    pub fn total(&self) -> (r: usize)
        requires
            self.passed + self.failed <= usize::MAX,
        ensures
            r == self.passed + self.failed,
    {
        self.passed + self.failed
    }
}

/// A line, cut after 256 characters.
pub open spec fn truncated_line(line: Seq<char>) -> Seq<char> {
    if line.len() > 256 {
        line.take(256).push('…')
    } else {
        line
    }
}

/// Cuts a line after 256 characters.
pub fn truncate_line(line: &str) -> (r: String)
    ensures
        r@ == truncated_line(line@),
{
    if line.unicode_len() > 256 {
        let mut s = line.substring_char(0, 256).to_owned();
        s.push('…');
        assert(s@ =~= truncated_line(line@));
        s
    } else {
        line.to_owned()
    }
}

/// The category of a parse failure.
pub open spec fn fault_kind(fault: ParseFault) -> ValidationErrorKind {
    match fault {
        ParseFault::FieldCount { .. } => ValidationErrorKind::BadFieldCount,
        ParseFault::InvalidTimestamp(_) => ValidationErrorKind::MalformedTimestamp,
        ParseFault::InvalidAgent(_) => ValidationErrorKind::InvalidAgent,
        ParseFault::EmptyItc => ValidationErrorKind::EmptyItc,
        ParseFault::InvalidParentHash(_) => ValidationErrorKind::InvalidParentHash,
        ParseFault::InvalidEventType(_) => ValidationErrorKind::UnknownEventType,
        ParseFault::InvalidItemId(_) => ValidationErrorKind::InvalidItemId,
        ParseFault::InvalidDataJson(_) => ValidationErrorKind::InvalidJson,
        ParseFault::DataSchemaMismatch { .. } => ValidationErrorKind::InvalidJson,
        ParseFault::InvalidEventHash(_) => ValidationErrorKind::InvalidHashFormat,
        ParseFault::HashMismatch { .. } => ValidationErrorKind::HashChainBroken,
        ParseFault::VersionMismatch(_) => ValidationErrorKind::UnsupportedVersion,
    }
}

/// The failure that a parse failure is.
pub open spec fn fault_view(fault: ParseFault, line_num: nat, raw: Seq<char>) -> ErrorView {
    ErrorView {
        line_num,
        kind: fault_kind(fault),
        message: match fault {
            ParseFault::VersionMismatch(message) => "unsupported event log version: "@ + message,
            _ => fault.text(),
        },
        raw_line: Some(truncated_line(raw)),
    }
}

/// Turns a parse failure into a validation failure.
pub fn parse_error_to_validation(err: ParseError, line_num: usize, raw: &str) -> (r: ValidationError)
    ensures
        r@ == fault_view(err@, line_num as nat, raw@),
{
    let kind = match &err {
        ParseError::FieldCount { .. } => ValidationErrorKind::BadFieldCount,
        ParseError::InvalidTimestamp(_) => ValidationErrorKind::MalformedTimestamp,
        ParseError::InvalidAgent(_) => ValidationErrorKind::InvalidAgent,
        ParseError::EmptyItc => ValidationErrorKind::EmptyItc,
        ParseError::InvalidParentHash(_) => ValidationErrorKind::InvalidParentHash,
        ParseError::InvalidEventType(_) => ValidationErrorKind::UnknownEventType,
        ParseError::InvalidItemId(_) => ValidationErrorKind::InvalidItemId,
        ParseError::InvalidDataJson(_) => ValidationErrorKind::InvalidJson,
        ParseError::DataSchemaMismatch { .. } => ValidationErrorKind::InvalidJson,
        ParseError::InvalidEventHash(_) => ValidationErrorKind::InvalidHashFormat,
        ParseError::HashMismatch { .. } => ValidationErrorKind::HashChainBroken,
        ParseError::VersionMismatch(_) => ValidationErrorKind::UnsupportedVersion,
    };
    let message = match &err {
        ParseError::VersionMismatch(message) => {
            let mut s = "unsupported event log version: ".to_owned();
            s.append(message.as_str());
            s
        },
        _ => err.to_string(),
    };
    ValidationError { line_num, kind, message, raw_line: Some(truncate_line(raw)) }
}

/// What is wrong with a line.
pub open spec fn line_fault(line: Seq<char>, line_num: nat) -> Option<ErrorView> {
    let trimmed = strip_line_end(line);
    let fields = split_on(trimmed, '\t');
    let payload = encode_utf8(fields[6]).len();
    if starts_with_char(trimmed, '#') || trim(trimmed).len() == 0 {
        None
    } else if fields.len() != 8 {
        Some(
            fault_view(ParseFault::FieldCount { found: fields.len(), expected: 8 }, line_num, trimmed),
        )
    } else if payload > MAX_PAYLOAD_BYTES {
        Some(
            ErrorView {
                line_num,
                kind: ValidationErrorKind::OversizedPayload,
                message: "data payload is "@ + nat_text(payload) + " bytes, exceeds limit of "@
                    + nat_text(MAX_PAYLOAD_BYTES as nat) + " bytes"@,
                raw_line: Some(truncated_line(trimmed)),
            },
        )
    } else {
        match read_line(line) {
            Ok(_) => None,
            Err(fault) => Some(fault_view(fault, line_num, trimmed)),
        }
    }
}

/// Checks a single line: its shape, the size of its payload, the payload itself
/// and the hash. Comments and blank lines pass. The first failure is reported.
/// The line of an event that can be written passes, unless its payload is too
/// large.
pub fn validate_event(line: &str, line_num: usize) -> (r: Result<(), ValidationError>)
    ensures
        match r {
            Ok(_) => line_fault(line@, line_num as nat) is None,
            Err(e) => line_fault(line@, line_num as nat) == Some(e@),
        },
        forall|event: EventView|
            #[trigger] event.writable() && encode_utf8(event.data_text()).len() <= MAX_PAYLOAD_BYTES
                && event.stands_in(line@) ==> r is Ok,
{
    proof {
        assert forall|event: EventView| #[trigger]
            event.writable() && event.stands_in(line@) implies split_on(strip_line_end(line@), '\t') == event.fields().push(
            event.event_hash,
        ) by {
            written_event_is_read(event);
        }
    }
    let trimmed = str_strip_line_end(line);
    if str_starts_with_char(trimmed, '#') || str_trim(trimmed).is_empty() {
        return Ok(());
    }
    let fields = split_char(trimmed, '\t');
    assert(views(fields@).len() == fields.len());
    if fields.len() != 8 {
        return Err(
            parse_error_to_validation(
                ParseError::FieldCount { found: fields.len(), expected: 8 },
                line_num,
                trimmed,
            ),
        );
    }
    assert(views(fields@)[6] == fields@[6]@);
    let payload = fields[6].as_bytes().len();
    if payload > MAX_PAYLOAD_BYTES {
        let mut message = concat3(
            "data payload is ",
            u64_text(payload as u64).as_str(),
            " bytes, exceeds limit of ",
        );
        message.append(u64_text(MAX_PAYLOAD_BYTES as u64).as_str());
        message.append(" bytes");
        return Err(
            ValidationError {
                line_num,
                kind: ValidationErrorKind::OversizedPayload,
                message,
                raw_line: Some(truncate_line(trimmed)),
            },
        );
    }
    match parse_line(line) {
        Ok(_) => Ok(()),
        Err(e) => Err(parse_error_to_validation(e, line_num, trimmed)),
    }
}

/// A failure of the file itself.
pub open spec fn file_fault(kind: ValidationErrorKind, message: Seq<char>) -> ErrorView {
    ErrorView { line_num: 0, kind, message, raw_line: None }
}

fn file_error(kind: ValidationErrorKind, message: String) -> (r: ValidationError)
    ensures
        r@ == file_fault(kind, message@),
{
    ValidationError { line_num: 0, kind, message, raw_line: None }
}

/// The hash of a file as text.
pub open spec fn file_hash(bytes: Seq<u8>) -> Seq<char> {
    "blake3:"@ + hex_text(blake3_digest(bytes))
}

/// A manifest as plain values.
pub ghost struct ManifestView {
    pub event_count: nat,
    pub byte_len: nat,
    pub file_hash: Seq<char>,
}

/// What an optional manifest says.
pub open spec fn manifest_view(manifest: Option<&ShardManifest>) -> Option<ManifestView> {
    match manifest {
        Some(m) => Some(
            ManifestView {
                event_count: m.event_count as nat,
                byte_len: m.byte_len as nat,
                file_hash: m.file_hash@,
            },
        ),
        None => None,
    }
}

/// How the length of a file differs from its manifest.
pub open spec fn size_faults(byte_len: nat, manifest: Option<ManifestView>) -> Seq<ErrorView> {
    match manifest {
        Some(m) => if byte_len != m.byte_len {
            seq![
                file_fault(
                    ValidationErrorKind::ManifestSizeMismatch,
                    "shard byte length "@ + nat_text(byte_len) + " does not match manifest "@
                        + nat_text(m.byte_len),
                ),
            ]
        } else {
            Seq::empty()
        },
        None => Seq::empty(),
    }
}

/// How the hash of a file differs from its manifest.
pub open spec fn hash_faults(hash: Seq<char>, manifest: Option<ManifestView>) -> Seq<ErrorView> {
    match manifest {
        Some(m) => if hash != m.file_hash {
            seq![
                file_fault(
                    ValidationErrorKind::ManifestMismatch,
                    "shard file hash '"@ + hash + "' does not match manifest '"@ + m.file_hash
                        + "'"@,
                ),
            ]
        } else {
            Seq::empty()
        },
        None => Seq::empty(),
    }
}

/// How the number of events in a file differs from its manifest.
pub open spec fn count_faults(events: nat, manifest: Option<ManifestView>) -> Seq<ErrorView> {
    match manifest {
        Some(m) => if events != m.event_count {
            seq![
                file_fault(
                    ValidationErrorKind::ManifestCountMismatch,
                    "shard event count "@ + nat_text(events) + " does not match manifest "@
                        + nat_text(m.event_count),
                ),
            ]
        } else {
            Seq::empty()
        },
        None => Seq::empty(),
    }
}

/// How the end of a file is cut off: it is not empty and ends without a line
/// feed.
pub open spec fn end_faults(content: Seq<char>) -> Seq<ErrorView> {
    if content.len() > 0 && content.last() != '\n' {
        seq![
            file_fault(
                ValidationErrorKind::TruncatedFile,
                "shard file does not end with newline — possible truncation"@,
            ),
        ]
    } else {
        Seq::empty()
    }
}

/// Whether a line holds an event: it is neither blank nor a comment.
pub open spec fn event_line(line: Seq<char>) -> bool {
    trim(line).len() > 0 && !starts_with_char(trim(line), '#')
}

/// The failures in the first `n` lines of a file.
pub open spec fn line_faults(file: Seq<Seq<char>>, n: nat) -> Seq<ErrorView>
    decreases n,
{
    if n == 0 {
        Seq::empty()
    } else {
        let before = line_faults(file, (n - 1) as nat);
        let line = file[n - 1];
        if event_line(line) && line_fault(line, n) is Some {
            before.push(line_fault(line, n)->0)
        } else {
            before
        }
    }
}

/// The number of events in the first `n` lines of a file.
pub open spec fn event_count(file: Seq<Seq<char>>, n: nat) -> nat
    decreases n,
{
    if n == 0 {
        0
    } else {
        event_count(file, (n - 1) as nat) + if event_line(file[n - 1]) {
            1nat
        } else {
            0nat
        }
    }
}

/// What is found in a file: how it differs from its manifest in length and
/// hash, whether its end is cut off, the failures in its lines, and how it
/// differs from its manifest in the number of events.
pub open spec fn content_report(
    content: Seq<char>,
    byte_len: nat,
    hash: Seq<char>,
    manifest: Option<ManifestView>,
) -> ReportView {
    let file = lines(content);
    let faults = line_faults(file, file.len());
    let events = event_count(file, file.len());
    let whole = size_faults(byte_len, manifest) + hash_faults(hash, manifest);
    let counted = count_faults(events, manifest);
    ReportView {
        passed: (events - faults.len()) as nat,
        failed: whole.len() + faults.len() + counted.len(),
        errors: whole + end_faults(content) + faults + counted,
        truncated: end_faults(content).len() > 0,
    }
}

/// What is found in a file that is not valid UTF-8.
pub open spec fn encoding_report(
    byte_len: nat,
    hash: Seq<char>,
    manifest: Option<ManifestView>,
    error: Seq<char>,
) -> ReportView {
    ReportView {
        passed: 0,
        failed: 1,
        errors: (size_faults(byte_len, manifest) + hash_faults(hash, manifest)).push(
            file_fault(
                ValidationErrorKind::InvalidUtf8,
                "shard file is not valid UTF-8: "@ + error,
            ),
        ),
        truncated: false,
    }
}

/// The report on a file that cannot be read.
pub fn unreadable_report(shard_path: String, error: &str) -> (r: ValidationReport)
    ensures
        r.shard_path == shard_path,
        r@ == (ReportView {
            passed: 0,
            failed: 1,
            errors: seq![
                file_fault(
                    ValidationErrorKind::InvalidUtf8,
                    "failed to read shard file: "@ + error@,
                ),
            ],
            truncated: false,
        }),
{
    let mut message = "failed to read shard file: ".to_owned();
    message.append(error);
    let mut errors: Vec<ValidationError> = Vec::new();
    errors.push(file_error(ValidationErrorKind::InvalidUtf8, message));
    assert(error_views(errors@) =~= seq![errors@[0]@]);
    ValidationReport { passed: 0, failed: 1, errors, shard_path, truncated: false }
}

/// How a file differs from its manifest in length and hash.
fn check_manifest(byte_len: u64, hash: &str, manifest: Option<&ShardManifest>) -> (r: Vec<
    ValidationError,
>)
    ensures
        error_views(r@) == size_faults(byte_len as nat, manifest_view(manifest)) + hash_faults(
            hash@,
            manifest_view(manifest),
        ),
        r.len() <= 2,
{
    let mut errors: Vec<ValidationError> = Vec::new();
    let ghost m = manifest_view(manifest);
    if let Some(manifest) = manifest {
        if byte_len != manifest.byte_len {
            let mut message = concat3(
                "shard byte length ",
                u64_text(byte_len).as_str(),
                " does not match manifest ",
            );
            message.append(u64_text(manifest.byte_len).as_str());
            errors.push(file_error(ValidationErrorKind::ManifestSizeMismatch, message));
        }
        assert(error_views(errors@) =~= size_faults(byte_len as nat, m));
        let ghost before = errors@;
        if !str_eq(hash, manifest.file_hash.as_str()) {
            let mut message = concat3("shard file hash '", hash, "' does not match manifest '");
            message.append(manifest.file_hash.as_str());
            message.append("'");
            errors.push(file_error(ValidationErrorKind::ManifestMismatch, message));
        }
        assert(error_views(errors@) =~= error_views(before) + hash_faults(hash@, m));
    }
    assert(error_views(errors@) =~= size_faults(byte_len as nat, m) + hash_faults(hash@, m));
    errors
}

/// Appends failures to a list.
fn append_errors(errors: &mut Vec<ValidationError>, more: Vec<ValidationError>)
    ensures
        error_views(final(errors)@) == error_views(old(errors)@) + error_views(more@),
        final(errors).len() == old(errors).len() + more.len(),
{
    let mut more = more;
    let ghost a = errors@;
    let ghost b = more@;
    errors.append(&mut more);
    assert(error_views(errors@) =~= error_views(a) + error_views(b));
}

/// The number of pieces that are not empty.
spec fn filled(pieces: Seq<Seq<char>>) -> nat
    decreases pieces.len(),
{
    if pieces.len() == 0 {
        0
    } else {
        filled(pieces.drop_last()) + if pieces.last().len() > 0 {
            1nat
        } else {
            0nat
        }
    }
}

proof fn lemma_filled(s: Seq<char>, sep: char)
    ensures
        split_on(s, sep).len() > 0,
        2 * filled(split_on(s, sep)) <= s.len() + 1,
        split_on(s, sep).last().len() == 0 ==> 2 * filled(split_on(s, sep)) <= s.len(),
    decreases s.len(),
{
    let pieces = split_on(s, sep);
    if s.len() == 0 {
        assert(pieces.drop_last() =~= Seq::empty());
        assert(filled(pieces.drop_last()) == 0);
    } else {
        lemma_filled(s.drop_last(), sep);
        let front = split_on(s.drop_last(), sep);
        if s.last() == sep {
            assert(pieces.drop_last() =~= front);
        } else {
            assert(pieces.drop_last() =~= front.drop_last());
        }
    }
}

proof fn lemma_events_filled(pieces: Seq<Seq<char>>, file: Seq<Seq<char>>, n: nat)
    requires
        n <= pieces.len(),
        n <= file.len(),
        forall|i: int|
            0 <= i < file.len() ==> (#[trigger] file[i]).len() > 0 ==> pieces[i].len() > 0,
    ensures
        event_count(file, n) <= filled(pieces.take(n as int)),
    decreases n,
{
    if n > 0 {
        lemma_events_filled(pieces, file, (n - 1) as nat);
        assert(pieces.take(n as int).drop_last() =~= pieces.take(n - 1));
        let line = file[n - 1];
        if event_line(line) {
            lemma_trim_len(line);
        }
    }
}

proof fn lemma_trim_len(s: Seq<char>)
    ensures
        trim(s).len() <= s.len(),
{
    lemma_trim_start_len(s);
    lemma_trim_end_len(trim_start(s));
    lemma_trim_end_len(s);
    lemma_trim_start_len(trim_end(s));
}

proof fn lemma_trim_start_len(s: Seq<char>)
    ensures
        trim_start(s).len() <= s.len(),
    decreases s.len(),
{
    if s.len() > 0 {
        lemma_trim_start_len(s.drop_first());
    }
}

proof fn lemma_trim_end_len(s: Seq<char>)
    ensures
        trim_end(s).len() <= s.len(),
    decreases s.len(),
{
    if s.len() > 0 {
        lemma_trim_end_len(s.drop_last());
    }
}

proof fn lemma_filled_grows(pieces: Seq<Seq<char>>, n: int)
    requires
        0 <= n <= pieces.len(),
    ensures
        filled(pieces.take(n)) <= filled(pieces),
    decreases pieces.len(),
{
    if n < pieces.len() {
        assert(pieces.drop_last().take(n) =~= pieces.take(n));
        lemma_filled_grows(pieces.drop_last(), n);
    } else {
        assert(pieces.take(n) =~= pieces);
    }
}

/// A text has at least two bytes for all but one of its events.
proof fn lemma_few_events(content: Seq<char>)
    ensures
        2 * event_count(lines(content), lines(content).len()) <= encode_utf8(content).len() + 1,
{
    let pieces = split_on(content, '\n');
    let file = lines(content);
    lemma_filled(content, '\n');
    assert forall|i: int| 0 <= i < file.len() && (#[trigger] file[i]).len() > 0 implies pieces[i].len()
        > 0 by {
        if i < pieces.len() - 1 {
            assert(file[i] == strip_one_cr(pieces[i]));
        }
    }
    lemma_events_filled(pieces, file, file.len());
    lemma_filled_grows(pieces, file.len() as int);
    lemma_bytes_cover(content);
}

proof fn lemma_bytes_cover(s: Seq<char>)
    ensures
        s.len() <= encode_utf8(s).len(),
    decreases s.len(),
{
    if s.len() > 0 {
        lemma_bytes_cover(s.drop_first());
    }
}

proof fn lemma_faults_within(file: Seq<Seq<char>>, n: nat)
    ensures
        line_faults(file, n).len() <= event_count(file, n),
    decreases n,
{
    if n > 0 {
        lemma_faults_within(file, (n - 1) as nat);
    }
}

proof fn lemma_count_grows(file: Seq<Seq<char>>, a: nat, b: nat)
    requires
        a <= b,
    ensures
        event_count(file, a) <= event_count(file, b),
    decreases b,
{
    if a < b {
        lemma_count_grows(file, a, (b - 1) as nat);
    }
}

/// Checks the content of a file that is valid UTF-8, given the hash of the
/// file. See [`validate_content`].
pub fn validate_text(
    content: &str,
    hash: &str,
    manifest: Option<&ShardManifest>,
    shard_path: String,
) -> (r: ValidationReport)
    ensures
        r.shard_path == shard_path,
        r@ == content_report(
            content@,
            encode_utf8(content@).len(),
            hash@,
            manifest_view(manifest),
        ),
{
    let byte_len = content.as_bytes().len();
    let ghost m = manifest_view(manifest);
    let mut errors = check_manifest(byte_len as u64, hash, manifest);
    let ghost whole = error_views(errors@);
    let ghost file = lines(content@);
    let ghost cut = end_faults(content@);
    let whole_failed: usize = errors.len();
    let mut truncated = false;
    let len = content.unicode_len();
    if len > 0 && content.get_char(len - 1) != '\n' {
        truncated = true;
        errors.push(
            file_error(
                ValidationErrorKind::TruncatedFile,
                "shard file does not end with newline — possible truncation".to_owned(),
            ),
        );
    }
    assert(error_views(errors@) =~= whole + cut);
    let all = str_lines(content);
    proof {
        lemma_few_events(content@);
        assert(string_views(all@) == file);
        assert(string_views(all@).len() == all.len());
    }
    let mut passed: usize = 0;
    let mut failed: usize = 0;
    let mut i: usize = 0;
    while i < all.len()
        invariant
            i <= all.len(),
            all.len() == file.len(),
            file == string_views(all@),
            2 * event_count(file, file.len()) <= byte_len + 1,
            error_views(errors@) == whole + cut + line_faults(file, i as nat),
            failed == line_faults(file, i as nat).len(),
            passed + failed == event_count(file, i as nat),
        decreases all.len() - i,
    {
        let line = all[i].as_str();
        assert(string_views(all@)[i as int] == line@);
        proof {
            lemma_count_grows(file, (i + 1) as nat, file.len());
        }
        let ghost before = error_views(errors@);
        let trimmed = str_trim(line);
        if !trimmed.is_empty() && !str_starts_with_char(trimmed, '#') {
            match validate_event(line, i + 1) {
                Ok(_) => {
                    passed += 1;
                },
                Err(e) => {
                    failed += 1;
                    let ghost view = e@;
                    errors.push(e);
                    assert(error_views(errors@) =~= before.push(view));
                    assert(before.push(view) =~= whole + cut + line_faults(file, (i + 1) as nat));
                },
            }
        }
        i += 1;
    }
    let events = passed + failed;
    let mut counted: Vec<ValidationError> = Vec::new();
    if let Some(manifest) = manifest {
        if events as u64 != manifest.event_count {
            let mut message = concat3(
                "shard event count ",
                u64_text(events as u64).as_str(),
                " does not match manifest ",
            );
            message.append(u64_text(manifest.event_count).as_str());
            counted.push(file_error(ValidationErrorKind::ManifestCountMismatch, message));
        }
    }
    assert(error_views(counted@) =~= count_faults(events as nat, m));
    let count_failed: usize = counted.len();
    append_errors(&mut errors, counted);
    let failed = failed + whole_failed + count_failed;
    ValidationReport { passed, failed, errors, shard_path, truncated }
}

/// Checks the content of a file.
///
/// Where a manifest is given, the length, the hash and the number of events of
/// the file are held against it. A file that is not valid UTF-8 is not checked
/// any further. The check goes on after a bad line.
pub fn validate_content(
    content_bytes: &[u8],
    manifest: Option<&ShardManifest>,
    shard_path: String,
) -> (r: ValidationReport)
    ensures
        r.shard_path == shard_path,
        r@ == if valid_utf8(content_bytes@) {
            content_report(
                decode_utf8(content_bytes@),
                content_bytes@.len(),
                file_hash(content_bytes@),
                manifest_view(manifest),
            )
        } else {
            encoding_report(
                content_bytes@.len(),
                file_hash(content_bytes@),
                manifest_view(manifest),
                utf8_error(content_bytes@),
            )
        },
{
    let mut hash = "blake3:".to_owned();
    hash.append(encode_hex(digest(content_bytes).as_slice()).as_str());
    match utf8_text(content_bytes) {
        Ok(content) => {
            proof {
                encode_utf8_decode_utf8(content@);
            }
            validate_text(content, hash.as_str(), manifest, shard_path)
        },
        Err(e) => {
            let mut errors = check_manifest(content_bytes.len() as u64, hash.as_str(), manifest);
            let ghost before = error_views(errors@);
            let mut message = "shard file is not valid UTF-8: ".to_owned();
            message.append(e.as_str());
            errors.push(file_error(ValidationErrorKind::InvalidUtf8, message));
            assert(error_views(errors@) =~= before.push(errors@.last()@));
            ValidationReport { passed: 0, failed: 1, errors, shard_path, truncated: false }
        },
    }
}

/// What the names of event log files end in.
pub const SHARD_SUFFIX: &'static str = ".events";

/// The name of the link to the event log file that is being written.
pub const CURRENT_SHARD: &'static str = "current.events";

/// Whether a file of the events directory is an event log file: its name has
/// something before the suffix, and it is not the link.
pub open spec fn names_shard(name: Seq<char>) -> bool {
    &&& name.len() > SHARD_SUFFIX@.len()
    &&& name.skip(name.len() - SHARD_SUFFIX@.len()) == SHARD_SUFFIX@
    &&& name != CURRENT_SHARD@
}

/// Whether a file of the events directory is an event log file.
pub fn is_shard_file(name: &str) -> (r: bool)
    ensures
        r == names_shard(name@),
{
    let len = name.unicode_len();
    let suffix = SHARD_SUFFIX.unicode_len();
    if len <= suffix || str_eq(name, CURRENT_SHARD) {
        return false;
    }
    let end = name.substring_char(len - suffix, len);
    assert(end@ =~= name@.skip(name@.len() - SHARD_SUFFIX@.len()));
    str_eq(end, SHARD_SUFFIX)
}

/// The event log files among the files of the events directory, in the order of
/// their names, which is the order in which they were written.
pub fn shard_files(names: &Vec<String>) -> (r: Vec<String>)
    ensures
        ascending(string_views(r@)),
        forall|x: Seq<char>| #[trigger]
            string_views(r@).contains(x) <==> string_views(names@).contains(x) && names_shard(x),
{
    let ghost all = string_views(names@);
    let mut r: Vec<String> = Vec::new();
    let mut i: usize = 0;
    assert(string_views(r@) =~= Seq::empty());
    while i < names.len()
        invariant
            i <= names.len(),
            all == string_views(names@),
            ascending(string_views(r@)),
            forall|x: Seq<char>|
                #![trigger string_views(r@).contains(x)]
                string_views(r@).contains(x) <==> all.take(i as int).contains(x) && names_shard(x),
        decreases names.len() - i,
    {
        let name = names[i].as_str();
        let ghost part = all.take(i as int);
        let ghost was = string_views(r@);
        assert(all.take(i + 1) =~= part.push(name@));
        if is_shard_file(name) && !holds(&r, name) {
            place(&mut r, names[i].clone());
        }
        proof {
            let next = all.take(i + 1);
            assert forall|x: Seq<char>|
                #![trigger string_views(r@).contains(x)]
                string_views(r@).contains(x) <==> next.contains(x) && names_shard(x) by {
                assert(was.contains(x) <==> part.contains(x) && names_shard(x));
                if part.contains(x) {
                    let k = choose|k: int| 0 <= k < part.len() && part[k] == x;
                    assert(next[k] == x);
                }
                if next.contains(x) && x != name@ {
                    let k = choose|k: int| 0 <= k < next.len() && next[k] == x;
                    assert(part[k] == x);
                }
                assert(next[i as int] == name@);
            }
        }
        i += 1;
    }
    assert(all.take(i as int) =~= all);
    r
}

/// Every line that holds an event is counted once, as passed or as failed.
pub proof fn every_event_is_counted(content: Seq<char>, byte_len: nat, hash: Seq<char>)
    ensures
        ({
            let report = content_report(content, byte_len, hash, None);
            report.passed + report.failed == event_count(lines(content), lines(content).len())
        }),
{
    lemma_faults_within(lines(content), lines(content).len());
}

}
