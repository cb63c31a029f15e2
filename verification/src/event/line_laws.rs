//! What the log promises of its lines: what a written line holds, which lines are
//! read as events, and why the others are refused.

use crate::event::canonical::canonical_text;
use crate::event::data::{read_outlined, Payload};
use crate::event::hash_text::{blake3_digest, hex_text, hex_value};
use crate::event::members::outline_in;
use crate::event::parser::{
    after_line, after_lines, agent_ok, first_bad_hash, hash_like, header_version, json_in,
    parent_list, read_line, LineView, ParseFault, Progress, HEADER_PREFIX,
};
use crate::event::types::EventType;
use crate::event::{tabbed, EventView};
use crate::model::item_id::{id_char, valid_id};
use crate::text::decimal::{i64_value, int_text, u32_value};
use crate::text::order::in_order;
use crate::text::slice::{
    is_space, join, join_undoes_split, split_on, starts_with, starts_with_char, strip_line_end, trim,
    trim_start,
};
use vstd::prelude::*;
use vstd::utf8::encode_utf8;

verus! {

/// The line of an event is its time, agent, clock, parents, type, item, data and hash,
/// in this order, with a tab between neighbours. The parents have commas between them.
pub proof fn line_is_its_fields(e: EventView)
    ensures
        e.line() == int_text(e.wall_ts_us as int) + "\t"@ + e.agent + "\t"@ + e.itc + "\t"@ + join(
            in_order(e.parents),
            ","@,
        ) + "\t"@ + e.event_type.name() + "\t"@ + e.item_id + "\t"@ + canonical_text(e.data.tree())
            + "\t"@ + e.event_hash,
{
    reveal_strlit("\t");
    reveal_strlit(",");
    assert("\t"@ =~= seq!['\t']);
    assert(","@ =~= seq![',']);
    let all = e.fields().push(e.event_hash);
    lemma_eight(all);
}

proof fn lemma_eight(f: Seq<Seq<char>>)
    requires
        f.len() == 8,
    ensures
        tabbed(f) == f[0] + seq!['\t'] + f[1] + seq!['\t'] + f[2] + seq!['\t'] + f[3] + seq!['\t']
            + f[4] + seq!['\t'] + f[5] + seq!['\t'] + f[6] + seq!['\t'] + f[7],
{
    reveal_with_fuel(join, 9);
    assert(f.drop_last().drop_last().drop_last().drop_last().drop_last().drop_last().drop_last()
        =~= seq![f[0]]);
}

/// The hash of an event is that of its line without the tab and the hash at the end,
/// with a line feed instead. Nothing else of the line is left out.
pub proof fn hash_covers_the_line(e: EventView)
    ensures
        ({
            let head = e.line().take(e.line().len() - e.event_hash.len() - 1);
            &&& e.line() == head.push('\t') + e.event_hash
            &&& e.computed_hash() == "blake3:"@ + hex_text(
                blake3_digest(encode_utf8(head.push('\n'))),
            )
        }),
{
    let all = e.fields().push(e.event_hash);
    assert(all.drop_last() =~= e.fields());
    let head = tabbed(e.fields());
    assert(e.line() =~= head.push('\t') + e.event_hash);
    assert(e.line().take(e.line().len() - e.event_hash.len() - 1) =~= head);
}

/// A line that is read as an event holds what the event holds: with its line end
/// taken off it is the time, agent, clock, parents, type, item, some JSON text and the
/// hash, with tabs between them. The payload is what the JSON text holds, and the hash
/// is that of all the others, with the JSON in canonical form. All of them are as they
/// have to be.
pub proof fn read_event_is_in_its_line(line: Seq<char>, e: EventView)
    requires
        read_line(line) == Ok::<LineView, ParseFault>(LineView::Event(e)),
    ensures
        exists|time: Seq<char>, data: Seq<char>|
            {
                &&& #[trigger] i64_value(time) == Some(e.wall_ts_us)
                &&& #[trigger] json_in(data) is Ok
                &&& strip_line_end(line) == time + "\t"@ + e.agent + "\t"@ + e.itc + "\t"@ + join(
                    e.parents,
                    ","@,
                ) + "\t"@ + e.event_type.name() + "\t"@ + e.item_id + "\t"@ + data + "\t"@
                    + e.event_hash
                &&& e.event_hash == "blake3:"@ + hex_text(
                    blake3_digest(
                        encode_utf8(
                            (time + "\t"@ + e.agent + "\t"@ + e.itc + "\t"@ + join(e.parents, ","@)
                                + "\t"@ + e.event_type.name() + "\t"@ + e.item_id + "\t"@
                                + canonical_text(json_in(data)->Ok_0)).push('\n'),
                        ),
                    ),
                )
                &&& read_outlined(e.event_type, json_in(data)->Ok_0, outline_in(data)) == Ok::<
                    Payload,
                    Seq<char>,
                >(e.data)
            },
        valid_id(e.item_id),
        e.agent.len() > 0,
        forall|i: int| 0 <= i < e.agent.len() ==> !is_space(#[trigger] e.agent[i]),
        e.itc.len() > 0,
        forall|i: int| 0 <= i < e.parents.len() ==> hash_like(#[trigger] e.parents[i]),
        hash_like(e.event_hash),
{
    reveal_strlit("\t");
    reveal_strlit(",");
    assert("\t"@ =~= seq!['\t']);
    assert(","@ =~= seq![',']);
    let trimmed = strip_line_end(line);
    let f = split_on(trimmed, '\t');
    join_undoes_split(trimmed, '\t');
    lemma_eight(f);
    if f[3].len() > 0 {
        join_undoes_split(f[3], ',');
    }
    first_bad_hash_is_first(e.parents);
    EventType::name_reads_back(e.event_type);
    lemma_named(f[4]);
    lemma_seven(f, canonical_text(json_in(f[6])->Ok_0));
    assert(i64_value(f[0]) == Some(e.wall_ts_us));
    assert(json_in(f[6]) is Ok);
}

proof fn lemma_seven(f: Seq<Seq<char>>, text: Seq<char>)
    requires
        f.len() == 8,
    ensures
        tabbed(f.take(6).push(text)) == f[0] + seq!['\t'] + f[1] + seq!['\t'] + f[2] + seq!['\t']
            + f[3] + seq!['\t'] + f[4] + seq!['\t'] + f[5] + seq!['\t'] + text,
{
    let hashed = f.take(6).push(text);
    let head = f[0] + seq!['\t'] + f[1] + seq!['\t'] + f[2] + seq!['\t'] + f[3] + seq!['\t']
        + f[4] + seq!['\t'] + f[5] + seq!['\t'] + text;
    let whole = tabbed(hashed.push(text));
    lemma_eight(hashed.push(text));
    assert(hashed.push(text).drop_last() =~= hashed);
    assert(whole =~= tabbed(hashed) + seq!['\t'] + text);
    assert(whole =~= head + seq!['\t'] + text);
    assert(tabbed(hashed) =~= whole.take(whole.len() - text.len() - 1));
    assert(head =~= whole.take(whole.len() - text.len() - 1));
}

proof fn lemma_named(s: Seq<char>)
    requires
        EventType::named(s) is Some,
    ensures
        EventType::named(s)->0.name() == s,
{
}

/// Of some texts, the first that is no hash is told, and none if all are hashes.
pub proof fn first_bad_hash_is_first(parts: Seq<Seq<char>>)
    ensures
        match first_bad_hash(parts) {
            Some(bad) => exists|k: int|
                0 <= k < parts.len() && #[trigger] parts[k] == bad && !hash_like(bad) && forall|
                    j: int,
                |
                    0 <= j < k ==> hash_like(#[trigger] parts[j]),
            None => forall|k: int| 0 <= k < parts.len() ==> hash_like(#[trigger] parts[k]),
        },
    decreases parts.len(),
{
    if parts.len() > 0 {
        let front = parts.drop_last();
        first_bad_hash_is_first(front);
        match first_bad_hash(front) {
            Some(bad) => {
                let k = choose|k: int|
                    0 <= k < front.len() && #[trigger] front[k] == bad && !hash_like(bad)
                        && forall|j: int| 0 <= j < k ==> hash_like(#[trigger] front[j]);
                assert(parts[k] == bad);
                assert forall|j: int| 0 <= j < k implies hash_like(#[trigger] parts[j]) by {
                    assert(front[j] == parts[j]);
                }
            },
            None => {
                assert forall|j: int| 0 <= j < front.len() implies hash_like(
                    #[trigger] parts[j],
                ) by {
                    assert(front[j] == parts[j]);
                }
                assert(parts[parts.len() - 1] == parts.last());
            },
        }
    }
}

/// A line is refused only for what is wrong with it: with the fields between its tabs,
/// the fault names the field that is not as it has to be.
pub proof fn refused_line_has_the_fault(line: Seq<char>)
    requires
        read_line(line) is Err,
    ensures
        ({
            let f = split_on(strip_line_end(line), '\t');
            match read_line(line)->Err_0 {
                ParseFault::FieldCount { found, expected } => expected == 8 && found == f.len()
                    && found != 8,
                ParseFault::InvalidTimestamp(s) => s == f[0] && i64_value(s) is None,
                ParseFault::InvalidAgent(s) => s == f[1] && (s.len() == 0 || exists|i: int|
                    0 <= i < s.len() && is_space(#[trigger] s[i])),
                ParseFault::EmptyItc => f[2].len() == 0,
                ParseFault::InvalidParentHash(s) => split_on(f[3], ',').contains(s) && !hash_like(s),
                ParseFault::InvalidEventType(s) => s == f[4] && EventType::named(s) is None,
                ParseFault::InvalidItemId(s) => s == f[5],
                ParseFault::InvalidDataJson(s) => json_in(f[6]) is Err && json_in(f[6])->Err_0 == s,
                ParseFault::DataSchemaMismatch { event_type, details } => event_type == f[4]
                    && json_in(f[6]) is Ok,
                ParseFault::InvalidEventHash(s) => s == f[7] && !hash_like(s),
                ParseFault::HashMismatch { expected, computed } => expected == f[7] && computed
                    != f[7] && hash_like(f[7]),
                ParseFault::VersionMismatch(_) => false,
            }
        }),
{
    let f = split_on(strip_line_end(line), '\t');
    if f.len() == 8 {
        first_bad_hash_is_first(parent_list(f[3]));
        if EventType::named(f[4]) is Some {
            lemma_named(f[4]);
        }
    }
}

/// A line of eight fields that are as they have to be is read as an event, whose hash
/// is that of the fields with the data in canonical form.
pub proof fn right_line_is_read(line: Seq<char>)
    requires
        ({
            let f = split_on(strip_line_end(line), '\t');
            &&& !starts_with_char(strip_line_end(line), '#')
            &&& trim(strip_line_end(line)).len() > 0
            &&& f.len() == 8
            &&& i64_value(f[0]) is Some
            &&& agent_ok(f[1])
            &&& f[2].len() > 0
            &&& f[3].len() == 0 || forall|k: int|
                0 <= k < split_on(f[3], ',').len() ==> hash_like(#[trigger] split_on(f[3], ',')[k])
            &&& EventType::named(f[4]) is Some
            &&& valid_id(f[5])
            &&& json_in(f[6]) is Ok
            &&& read_outlined(
                EventType::named(f[4])->0,
                json_in(f[6])->Ok_0,
                outline_in(f[6]),
            ) is Ok
            &&& hash_like(f[7])
            &&& f[7] == "blake3:"@ + hex_text(
                blake3_digest(
                    encode_utf8(
                        (f[0] + "\t"@ + f[1] + "\t"@ + f[2] + "\t"@ + f[3] + "\t"@ + f[4] + "\t"@
                            + f[5] + "\t"@ + canonical_text(json_in(f[6])->Ok_0)).push('\n'),
                    ),
                ),
            )
        }),
    ensures
        read_line(line) matches Ok(LineView::Event(_)),
{
    reveal_strlit("\t");
    assert("\t"@ =~= seq!['\t']);
    let f = split_on(strip_line_end(line), '\t');
    first_bad_hash_is_first(parent_list(f[3]));
    let text = canonical_text(json_in(f[6])->Ok_0);
    lemma_seven(f, text);
}

/// A line that starts with `#` is a comment, and a line of white space is blank.
pub proof fn comments_and_blank_lines_are_told(line: Seq<char>)
    ensures
        strip_line_end(line).len() > 0 && strip_line_end(line)[0] == '#' ==> read_line(line)
            == Ok::<LineView, ParseFault>(LineView::Comment(strip_line_end(line))),
        read_line(line) == Ok::<LineView, ParseFault>(LineView::Blank) ==> trim(
            strip_line_end(line),
        ).len() == 0,
        strip_line_end(line).len() == 0 ==> read_line(line) == Ok::<LineView, ParseFault>(
            LineView::Blank,
        ),
{
}

/// A header is accepted exactly if it is, without the white space round it, the words
/// before the version and the number one.
pub proof fn accepted_header_is_of_version_one(line: Seq<char>)
    ensures
        header_version(line) is Ok <==> {
            &&& starts_with(trim(line), "# bones event log v"@)
            &&& u32_value(trim(line).skip("# bones event log v"@.len() as int)) == Some(1u32)
        },
        header_version(line) is Ok ==> header_version(line)->Ok_0 == 1,
{
}

/// Each line adds its own event to those read before it. Comments, blank lines and
/// lines of an unknown type add none.
pub proof fn line_adds_its_event(file: Seq<Seq<char>>, line: Seq<char>)
    requires
        after_lines(file) is Ok,
        !starts_with(trim_start(line), HEADER_PREFIX@),
    ensures
        ({
            let before = after_lines(file)->Ok_0;
            let after = after_lines(file.push(line));
            match read_line(line) {
                Ok(LineView::Event(e)) => after is Ok && after->Ok_0.events == before.events.push(
                    e,
                ),
                Ok(_) => after is Ok && after->Ok_0.events == before.events,
                Err(ParseFault::InvalidEventType(_)) => after is Ok && after->Ok_0.events
                    == before.events,
                Err(fault) => after == Err::<Progress, (nat, ParseFault)>((file.len() + 1, fault)),
            }
        }),
{
    assert(file.push(line).drop_last() =~= file);
    assert(file.push(line).last() == line);
}

/// A file with a line that is refused is refused for the first such line, by its
/// number, whatever follows.
pub proof fn file_is_refused_for_its_first_bad_line(
    file: Seq<Seq<char>>,
    line: Seq<char>,
    rest: Seq<Seq<char>>,
)
    requires
        after_lines(file) is Ok,
        !starts_with(trim_start(line), HEADER_PREFIX@),
        read_line(line) is Err,
        !(read_line(line)->Err_0 is InvalidEventType),
    ensures
        after_lines(file.push(line) + rest) == Err::<Progress, (nat, ParseFault)>(
            (file.len() + 1, read_line(line)->Err_0),
        ),
    decreases rest.len(),
{
    if rest.len() == 0 {
        line_adds_its_event(file, line);
        assert(file.push(line) + rest =~= file.push(line));
    } else {
        file_is_refused_for_its_first_bad_line(file, line, rest.drop_last());
        assert((file.push(line) + rest).drop_last() =~= file.push(line) + rest.drop_last());
    }
}

/// A file whose first line is a header of another version is refused for that.
pub proof fn file_of_another_version_is_refused(line: Seq<char>, rest: Seq<Seq<char>>)
    requires
        starts_with(trim_start(line), HEADER_PREFIX@),
        header_version(line) is Err,
    ensures
        after_lines(seq![line] + rest) is Err,
        after_lines(seq![line] + rest)->Err_0.0 == 1,
        after_lines(seq![line] + rest)->Err_0.1 is VersionMismatch,
    decreases rest.len(),
{
    let file = seq![line] + rest;
    if rest.len() == 0 {
        assert(file.drop_last() =~= Seq::empty());
        assert(file.last() == line);
        assert(after_lines(file.drop_last()) is Ok);
        let none = Progress { version_checked: false, events: Seq::empty() };
        assert(after_line(none, line) is Err);
    } else {
        file_of_another_version_is_refused(line, rest.drop_last());
        assert(file.drop_last() =~= seq![line] + rest.drop_last());
    }
}

/// An item's name is `bn-` and something after it, made of small letters, digits and
/// dots.
pub proof fn item_names_have_one_shape(s: Seq<char>)
    ensures
        valid_id(s) <==> exists|rest: Seq<char>|
            s == #[trigger] ("bn-"@ + rest) && rest.len() > 0 && forall|i: int|
                0 <= i < rest.len() ==> 'a' <= #[trigger] rest[i] <= 'z' || '0' <= rest[i] <= '9'
                    || rest[i] == '.',
{
    reveal_strlit("bn-");
    if valid_id(s) {
        let rest = s.skip(3);
        assert(s =~= "bn-"@ + rest);
        assert forall|i: int| 0 <= i < rest.len() implies 'a' <= #[trigger] rest[i] <= 'z' || '0'
            <= rest[i] <= '9' || rest[i] == '.' by {
            assert(id_char(s[i + 3]));
        }
    }
    assert forall|rest: Seq<char>|
        s == #[trigger] ("bn-"@ + rest) && rest.len() > 0 && (forall|i: int|
            0 <= i < rest.len() ==> 'a' <= #[trigger] rest[i] <= 'z' || '0' <= rest[i] <= '9'
                || rest[i] == '.') implies valid_id(s) by {
        assert(s.take(3) =~= "bn-"@);
        assert forall|i: int| 3 <= i < s.len() implies id_char(#[trigger] s[i]) by {
            assert(s[i] == rest[i - 3]);
        }
    }
}

/// The text of a hash is the name of the hash function, a colon and something after
/// it, made of hexadecimal digits.
pub proof fn hashes_have_one_shape(s: Seq<char>)
    ensures
        hash_like(s) <==> exists|rest: Seq<char>|
            s == #[trigger] ("blake3:"@ + rest) && rest.len() > 0 && forall|i: int|
                0 <= i < rest.len() ==> '0' <= #[trigger] rest[i] <= '9' || 'a' <= rest[i] <= 'f'
                    || 'A' <= rest[i] <= 'F',
{
    let n = "blake3:"@.len() as int;
    if hash_like(s) {
        let rest = s.skip(n);
        assert(s =~= "blake3:"@ + rest);
        assert forall|i: int| 0 <= i < rest.len() implies '0' <= #[trigger] rest[i] <= '9' || 'a'
            <= rest[i] <= 'f' || 'A' <= rest[i] <= 'F' by {
            assert(hex_value(s[i + n]) is Some);
        }
    }
    assert forall|rest: Seq<char>|
        s == #[trigger] ("blake3:"@ + rest) && rest.len() > 0 && (forall|i: int|
            0 <= i < rest.len() ==> '0' <= #[trigger] rest[i] <= '9' || 'a' <= rest[i] <= 'f'
                || 'A' <= rest[i] <= 'F') implies hash_like(s) by {
        assert(s.take(n) =~= "blake3:"@);
        assert forall|i: int| n <= i < s.len() implies hex_value(#[trigger] s[i]) is Some by {
            assert(s[i] == rest[i - n]);
        }
    }
}

}
