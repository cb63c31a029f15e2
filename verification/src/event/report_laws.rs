//! What the validation of a shard promises of its report.

use crate::event::data::read_outlined;
use crate::event::line_laws::refused_line_has_the_fault;
use crate::event::members::outline_in;
use crate::event::parser::{agent_ok, hash_like, json_in, read_line};
use crate::event::types::EventType;
use crate::event::validate::{
    content_report, count_faults, encoding_report, end_faults, event_count, event_line,
    every_event_is_counted, hash_faults, line_fault, line_faults, names_shard, size_faults, truncated_line,
    ManifestView, ReportView, ValidationErrorKind,
};
use crate::model::item_id::valid_id;
use crate::text::decimal::i64_value;
use crate::text::slice::{lines, split_on, starts_with_char, strip_line_end, trim};
use vstd::prelude::*;
use vstd::utf8::encode_utf8;

verus! {

/// Whether a report tells of an error of some kind that concerns the whole file.
pub open spec fn tells(report: ReportView, kind: ValidationErrorKind) -> bool {
    exists|i: int|
        0 <= i < report.errors.len() && (#[trigger] report.errors[i]).line_num == 0
            && report.errors[i].kind == kind
}

/// The places of the lines, among the first `n`, that should hold an event.
pub open spec fn event_places(file: Seq<Seq<char>>, n: nat) -> Set<int> {
    Set::new(|i: int| 0 <= i < n && event_line(file[i]))
}

proof fn lemma_count_is_of_places(file: Seq<Seq<char>>, n: nat)
    ensures
        event_places(file, n).finite(),
        event_count(file, n) == event_places(file, n).len(),
    decreases n,
{
    if n == 0 {
        assert(event_places(file, n) =~= Set::empty());
    } else {
        let before = event_places(file, (n - 1) as nat);
        lemma_count_is_of_places(file, (n - 1) as nat);
        if event_line(file[n - 1]) {
            assert(event_places(file, n) =~= before.insert(n - 1));
        } else {
            assert(event_places(file, n) =~= before);
        }
    }
}

proof fn lemma_line_num(line: Seq<char>, n: nat)
    requires
        line_fault(line, n) is Some,
    ensures
        (line_fault(line, n)->0).line_num == n,
{
}

/// The errors of lines are exactly those of the lines that have one, in their order.
proof fn lemma_line_faults(file: Seq<Seq<char>>, n: nat)
    ensures
        forall|k: int|
            0 <= k < line_faults(file, n).len() ==> 1 <= (#[trigger] line_faults(file, n)[k]).line_num
                <= n && event_line(file[line_faults(file, n)[k].line_num - 1]) && line_fault(
                file[line_faults(file, n)[k].line_num - 1],
                line_faults(file, n)[k].line_num,
            ) == Some(line_faults(file, n)[k]),
        forall|j: int, k: int|
            0 <= j < k < line_faults(file, n).len() ==> (#[trigger] line_faults(
                file,
                n,
            )[j]).line_num < (#[trigger] line_faults(file, n)[k]).line_num,
        forall|i: int|
            0 <= i < n && event_line(#[trigger] file[i]) && line_fault(file[i], (i + 1) as nat) is Some
                ==> line_faults(file, n).contains(line_fault(file[i], (i + 1) as nat)->0),
    decreases n,
{
    if n > 0 {
        let before = line_faults(file, (n - 1) as nat);
        lemma_line_faults(file, (n - 1) as nat);
        let all = line_faults(file, n);
        let line = file[n - 1];
        if event_line(line) && line_fault(line, n) is Some {
            lemma_line_num(line, n);
            let new = line_fault(line, n)->0;
            assert(all == before.push(new));
            assert forall|k: int| 0 <= k < all.len() implies 1 <= (#[trigger] all[k]).line_num <= n
                && event_line(file[all[k].line_num - 1]) && line_fault(
                file[all[k].line_num - 1],
                all[k].line_num,
            ) == Some(all[k]) by {
                if k < before.len() {
                    assert(all[k] == before[k]);
                }
            }
            assert forall|j: int, k: int| 0 <= j < k < all.len() implies (
            #[trigger] all[j]).line_num < (#[trigger] all[k]).line_num by {
                assert(all[j] == before[j]);
                if k < before.len() {
                    assert(all[k] == before[k]);
                }
            }
            assert forall|i: int|
                0 <= i < n && event_line(#[trigger] file[i]) && line_fault(
                    file[i],
                    (i + 1) as nat,
                ) is Some implies all.contains(line_fault(file[i], (i + 1) as nat)->0) by {
                if i < n - 1 {
                    let e = line_fault(file[i], (i + 1) as nat)->0;
                    assert(before.contains(e));
                    let k = choose|k: int| 0 <= k < before.len() && before[k] == e;
                    assert(all[k] == e);
                } else {
                    assert(all[all.len() - 1] == new);
                }
            }
        }
    }
}

/// A report tells of every line that should hold an event and is not accepted, with
/// its number counted from one. It tells of no other line.
pub proof fn each_bad_line_is_told(
    content: Seq<char>,
    byte_len: nat,
    hash: Seq<char>,
    manifest: Option<ManifestView>,
    i: int,
)
    requires
        0 <= i < lines(content).len(),
    ensures
        ({
            let report = content_report(content, byte_len, hash, manifest);
            let line = lines(content)[i];
            let bad = event_line(line) && line_fault(line, (i + 1) as nat) is Some;
            &&& bad ==> report.errors.contains(line_fault(line, (i + 1) as nat)->0)
            &&& bad <==> exists|k: int|
                0 <= k < report.errors.len() && (#[trigger] report.errors[k]).line_num == i + 1
        }),
{
    let file = lines(content);
    let report = content_report(content, byte_len, hash, manifest);
    let faults = line_faults(file, file.len());
    lemma_line_faults(file, file.len());
    let whole = lemma_parts(content, byte_len, hash, manifest);
    let line = file[i];
    if event_line(line) && line_fault(line, (i + 1) as nat) is Some {
        let e = line_fault(line, (i + 1) as nat)->0;
        lemma_line_num(line, (i + 1) as nat);
        assert(faults.contains(e));
        let k = choose|k: int| 0 <= k < faults.len() && faults[k] == e;
        assert(report.errors[whole + k] == e);
    }
    assert forall|k: int|
        0 <= k < report.errors.len() && (#[trigger] report.errors[k]).line_num == i
            + 1 implies event_line(line) && line_fault(line, (i + 1) as nat) is Some by {
        assert(report.errors[k] == faults[k - whole]);
    }
}

/// The errors of lines stand in the report after `whole` others, and every other error
/// has the line number zero.
proof fn lemma_parts(
    content: Seq<char>,
    byte_len: nat,
    hash: Seq<char>,
    manifest: Option<ManifestView>,
) -> (whole: int)
    ensures
        ({
            let report = content_report(content, byte_len, hash, manifest);
            let faults = line_faults(lines(content), lines(content).len());
            &&& 0 <= whole
            &&& whole + faults.len() <= report.errors.len()
            &&& forall|k: int|
                0 <= k < faults.len() ==> report.errors[whole + k] == #[trigger] faults[k]
            &&& forall|k: int|
                0 <= k < report.errors.len() && !(whole <= k < whole + faults.len()) ==> (
                #[trigger] report.errors[k]).line_num == 0
            &&& forall|k: int|
                whole <= k < whole + faults.len() ==> #[trigger] report.errors[k] == faults[k
                    - whole]
        }),
{
    let report = content_report(content, byte_len, hash, manifest);
    let faults = line_faults(lines(content), lines(content).len());
    let head = size_faults(byte_len, manifest)
        + hash_faults(hash, manifest)
        + end_faults(content);
    let tail = count_faults(
        event_count(lines(content), lines(content).len()),
        manifest,
    );
    assert(report.errors =~= head + faults + tail);
    head.len() as int
}

/// A report tells that the size, the hash or the number of events is another than the
/// manifest says exactly if it is. Without a manifest it tells nothing of these.
pub proof fn manifest_is_held_against_the_file(
    content: Seq<char>,
    byte_len: nat,
    hash: Seq<char>,
    manifest: Option<ManifestView>,
)
    ensures
        ({
            let report = content_report(content, byte_len, hash, manifest);
            let file = lines(content);
            &&& tells(report, ValidationErrorKind::ManifestSizeMismatch) <==> manifest is Some
                && byte_len != manifest->0.byte_len
            &&& tells(report, ValidationErrorKind::ManifestMismatch) <==> manifest is Some && hash
                != manifest->0.file_hash
            &&& tells(report, ValidationErrorKind::ManifestCountMismatch) <==> manifest is Some
                && event_places(file, file.len()).len() != manifest->0.event_count
        }),
{
    let report = content_report(content, byte_len, hash, manifest);
    let file = lines(content);
    lemma_count_is_of_places(file, file.len());
    lemma_line_faults(file, file.len());
    let faults = line_faults(file, file.len());
    let whole = lemma_parts(content, byte_len, hash, manifest);
    let size = size_faults(byte_len, manifest);
    let hashes = hash_faults(hash, manifest);
    let end = end_faults(content);
    let counts = count_faults(event_count(file, file.len()), manifest);
    let all = report.errors;
    assert(all =~= size + hashes + end + faults + counts);
    let b = size.len() + hashes.len();
    let c = b + end.len() + faults.len();
    if size.len() > 0 {
        assert(all[0] == size[0]);
    }
    if hashes.len() > 0 {
        assert(all[size.len() as int] == hashes[0]);
    }
    if counts.len() > 0 {
        assert(all[c as int] == counts[0]);
    }
    assert forall|k: int| 0 <= k < all.len() && (#[trigger] all[k]).line_num == 0 implies {
        ||| k < size.len() && all[k] == size[k]
        ||| size.len() <= k < b && all[k] == hashes[k - size.len()]
        ||| b <= k < b + end.len() && all[k] == end[k - b]
        ||| c <= k && all[k] == counts[k - c]
    } by {
        if b + end.len() <= k < c {
            assert(all[k] == faults[k - b - end.len()]);
        }
    }
}

/// A file is told to be truncated exactly if it is not empty and ends without a line
/// feed.
pub proof fn truncation_is_told(
    content: Seq<char>,
    byte_len: nat,
    hash: Seq<char>,
    manifest: Option<ManifestView>,
)
    ensures
        content_report(content, byte_len, hash, manifest).truncated <==> content.len() > 0
            && content[content.len() - 1] != '\n',
{
}

/// Every error counts as failed but for a truncation. The events that passed and the
/// lines that failed are all of the lines that should hold an event.
pub proof fn report_counts_add_up(
    content: Seq<char>,
    byte_len: nat,
    hash: Seq<char>,
    manifest: Option<ManifestView>,
)
    ensures
        ({
            let report = content_report(content, byte_len, hash, manifest);
            let file = lines(content);
            let bad = line_faults(file, file.len()).len();
            &&& report.errors.len() == report.failed + if report.truncated {
                1int
            } else {
                0int
            }
            &&& report.passed + bad == event_places(file, file.len()).len()
            &&& manifest is None ==> report.failed == bad
        }),
{
    let file = lines(content);
    lemma_count_is_of_places(file, file.len());
    every_event_is_counted(content, byte_len, hash);
}

/// Bytes that are no text fail as a whole: one failure, and an error that says so.
pub proof fn bytes_that_are_no_text_fail(
    byte_len: nat,
    hash: Seq<char>,
    manifest: Option<ManifestView>,
    error: Seq<char>,
)
    ensures
        ({
            let report = encoding_report(byte_len, hash, manifest, error);
            &&& report.passed == 0
            &&& report.failed == 1
            &&& !report.truncated
            &&& tells(report, ValidationErrorKind::InvalidUtf8)
            &&& manifest is Some && byte_len != manifest->0.byte_len ==> tells(
                report,
                ValidationErrorKind::ManifestSizeMismatch,
            )
            &&& manifest is Some && hash != manifest->0.file_hash ==> tells(
                report,
                ValidationErrorKind::ManifestMismatch,
            )
        }),
{
    let report = encoding_report(byte_len, hash, manifest, error);
    let all = report.errors;
    let size = size_faults(byte_len, manifest);
    let hashes = hash_faults(hash, manifest);
    assert(all.last().kind == ValidationErrorKind::InvalidUtf8);
    assert(all[all.len() - 1].line_num == 0);
    if size.len() > 0 {
        assert(all[0] == size[0]);
    }
    if hashes.len() > 0 {
        assert(all[size.len() as int] == hashes[0]);
    }
}

/// A line is accepted exactly if it is read and its data field is no longer than one
/// mebibyte. Comments and blank lines are accepted.
pub proof fn accepted_line_is_read_and_small(line: Seq<char>, n: nat)
    ensures
        ({
            let f = split_on(strip_line_end(line), '\t');
            let event = !starts_with_char(strip_line_end(line), '#') && trim(
                strip_line_end(line),
            ).len() > 0;
            &&& line_fault(line, n) is None <==> (read_line(line) is Ok && (event ==> encode_utf8(
                f[6],
            ).len() <= 1_048_576))
            &&& !event ==> line_fault(line, n) is None
        }),
{
}

/// What is told of a line is true of it: the number is that of the line, the text its
/// start, and the kind names what is wrong with its fields.
pub proof fn told_error_is_true_of_its_line(line: Seq<char>, n: nat)
    requires
        line_fault(line, n) is Some,
    ensures
        ({
            let e = line_fault(line, n)->0;
            let f = split_on(strip_line_end(line), '\t');
            &&& e.line_num == n
            &&& e.raw_line == Some(truncated_line(strip_line_end(line)))
            &&& (e.kind == ValidationErrorKind::BadFieldCount <==> f.len() != 8)
            &&& (e.kind == ValidationErrorKind::OversizedPayload <==> f.len() == 8 && encode_utf8(
                f[6],
            ).len() > 1_048_576)
            &&& (e.kind == ValidationErrorKind::MalformedTimestamp ==> i64_value(f[0]) is None)
            &&& (e.kind == ValidationErrorKind::InvalidAgent ==> i64_value(f[0]) is Some
                && !agent_ok(f[1]))
            &&& (e.kind == ValidationErrorKind::EmptyItc ==> f[2].len() == 0)
            &&& (e.kind == ValidationErrorKind::InvalidParentHash ==> exists|s: Seq<char>|
                split_on(f[3], ',').contains(s) && !#[trigger] hash_like(s))
            &&& (e.kind == ValidationErrorKind::UnknownEventType ==> EventType::named(
                f[4],
            ) is None)
            &&& (e.kind == ValidationErrorKind::InvalidItemId
                ==> !valid_id(f[5]))
            &&& (e.kind == ValidationErrorKind::InvalidJson ==> json_in(f[6]) is Err
                || read_outlined(
                EventType::named(f[4])->0,
                json_in(f[6])->Ok_0,
                outline_in(f[6]),
            ) is Err)
            &&& (e.kind == ValidationErrorKind::InvalidHashFormat ==> !hash_like(f[7]))
            &&& (e.kind == ValidationErrorKind::HashChainBroken ==> hash_like(f[7]) && json_in(
                f[6],
            ) is Ok)
            &&& e.kind != ValidationErrorKind::UnsupportedVersion
            &&& e.kind != ValidationErrorKind::TruncatedFile
            &&& e.kind != ValidationErrorKind::InvalidUtf8
        }),
{
    let f = split_on(strip_line_end(line), '\t');
    if read_line(line) is Err {
        refused_line_has_the_fault(line);
    }
}

/// What is shown of a line is its start: all of it, or its first 256 characters and an
/// ellipsis.
pub proof fn shown_line_is_the_start(line: Seq<char>)
    ensures
        truncated_line(line).len() <= 257,
        line.len() <= 256 ==> truncated_line(line) == line,
        forall|i: int|
            0 <= i < line.len() && i < 256 ==> #[trigger] truncated_line(line)[i] == line[i],
        line.len() > 256 ==> truncated_line(line)[256] == '…',
{
}

/// The name of a shard is something and `.events` after it. The link to the shard that
/// is being written is none.
pub proof fn shard_names_have_one_shape(name: Seq<char>)
    ensures
        names_shard(name) <==> name != "current.events"@ && exists|stem: Seq<char>|
            name == #[trigger] (stem + ".events"@) && stem.len() > 0,
{
    let n = ".events"@.len() as int;
    if names_shard(name) {
        assert(name =~= name.take(name.len() - n) + ".events"@);
    }
    assert forall|stem: Seq<char>|
        name == #[trigger] (stem + ".events"@) && stem.len() > 0 && name
            != "current.events"@ implies names_shard(name) by {
        assert(name.skip(name.len() - n) =~= ".events"@);
    }
}

/// A shard is clean exactly if each of its lines that should hold an event is accepted,
/// its size, hash and number of events are those of the manifest, where there is one,
/// and it does not end in the middle of a line.
pub proof fn clean_shard_has_nothing_wrong(
    content: Seq<char>,
    byte_len: nat,
    hash: Seq<char>,
    manifest: Option<ManifestView>,
)
    ensures
        content_report(content, byte_len, hash, manifest).clean() <==> {
            let file = lines(content);
            &&& forall|i: int|
                0 <= i < file.len() && event_line(#[trigger] file[i]) ==> line_fault(
                    file[i],
                    (i + 1) as nat,
                ) is None
            &&& manifest is Some ==> byte_len == manifest->0.byte_len && hash
                == manifest->0.file_hash && event_places(file, file.len()).len()
                == manifest->0.event_count
            &&& content.len() == 0 || content[content.len() - 1] == '\n'
        },
{
    let file = lines(content);
    let faults = line_faults(file, file.len());
    lemma_line_faults(file, file.len());
    lemma_count_is_of_places(file, file.len());
    if faults.len() > 0 {
        let line = file[faults[0].line_num - 1];
        assert(event_line(line) && line_fault(line, faults[0].line_num) is Some);
    } else {
        assert forall|i: int|
            0 <= i < file.len() && event_line(#[trigger] file[i]) implies line_fault(
            file[i],
            (i + 1) as nat,
        ) is None by {
            if line_fault(file[i], (i + 1) as nat) is Some {
                assert(faults.contains(line_fault(file[i], (i + 1) as nat)->0));
            }
        }
    }
}

}
