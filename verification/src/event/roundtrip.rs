//! What is written to the log is read back.

use crate::event::canonical::{
    canonical_text, depth_limit, escaped, escaped_all, hex_char, items_text, key_order,
    member_text, members_text, plain, quoted,
};
use crate::event::data::{payload_reads_back, readable_payload_has_no_flaw};
use crate::event::hash_text::{blake3_digest, hex_reads_back, hex_text, hex_value};
use crate::event::json::JsonTree;
use crate::event::members::outline_of;
use crate::event::parser::{
    agent_ok, first_bad_hash, hash_like, hashed_fields, parent_list, read_event_line, ParseFault,
};
use crate::event::types::EventType;
use crate::event::writer::{FIELD_COMMENT, SHARD_HEADER};
use crate::event::{line_hash, tabbed, EventView};
use crate::model::item_id::{id_char, valid_id};
use crate::text::decimal::{
    int_text, int_text_reads_back, is_digit, nat_text, nat_text_reads_back,
};
use crate::text::order::{in_order, in_order_is_sorted, in_order_is_unique, sorted_texts};
use crate::text::slice::{
    added_line_is_last, is_space, join, lines, split_on, split_undoes_join, starts_with_char,
    strip_line_end, trim, trim_end, trim_end_char, trim_start,
};
use vstd::prelude::*;

verus! {

impl EventView {
    /// Whether an event can be written so that it is read back, once it has its
    /// hash: its fields are what a line accepts, its parents are in order, its
    /// payload belongs to its type and is no deeper than the JSON reader goes, and
    /// numbers in it are integers.
    pub open spec fn fit(self) -> bool {
        &&& agent_ok(self.agent)
        &&& self.itc.len() > 0
        &&& !self.itc.contains('\t')
        &&& forall|i: int| 0 <= i < self.parents.len() ==> hash_like(#[trigger] self.parents[i])
        &&& sorted_texts(self.parents)
        &&& valid_id(self.item_id)
        &&& self.data.event_type() == self.event_type
        &&& self.data.separate()
        &&& plain(self.data.tree(), depth_limit())
    }

    /// Whether an event can be written so that it is read back: it is fit, and
    /// its hash is `blake3:<hex>` and the one that its other fields have.
    pub open spec fn writable(self) -> bool {
        &&& self.fit()
        &&& self.event_hash == self.computed_hash()
        &&& hash_like(self.event_hash)
    }

    /// The event with its parents in the order in which they are written.
    pub open spec fn ordered(self) -> EventView {
        EventView { parents: in_order(self.parents), ..self }
    }

    /// Whether a line is that of the event, with or without a line end.
    pub open spec fn stands_in(self, line: Seq<char>) -> bool {
        ||| line == self.line()
        ||| line == self.line().push('\n')
        ||| line == self.line().push('\r').push('\n')
    }
}

/// Whether a text holds no control character.
pub open spec fn printable(s: Seq<char>) -> bool {
    forall|i: int| 0 <= i < s.len() ==> ' ' <= #[trigger] s[i]
}

proof fn lemma_printable_concat(a: Seq<char>, b: Seq<char>)
    requires
        printable(a),
        printable(b),
    ensures
        printable(a + b),
{
    assert forall|i: int| 0 <= i < (a + b).len() implies ' ' <= #[trigger] (a + b)[i] by {
        if i < a.len() {
            assert((a + b)[i] == a[i]);
        } else {
            assert((a + b)[i] == b[i - a.len()]);
        }
    }
}

proof fn lemma_printable_lacks(s: Seq<char>, c: char)
    requires
        printable(s),
        !(' ' <= c),
    ensures
        !s.contains(c),
{
}

proof fn lemma_digits_printable(n: int)
    ensures
        printable(int_text(n)),
        int_text(n).len() > 0,
        int_text(n)[0] == '-' || is_digit(int_text(n)[0]),
{
    let m = if n < 0 {
        (-n) as nat
    } else {
        n as nat
    };
    nat_text_reads_back(m);
    assert(forall|i: int| 0 <= i < nat_text(m).len() ==> is_digit(#[trigger] nat_text(m)[i]));
    assert(printable(nat_text(m)));
    if n < 0 {
        assert(printable(seq!['-']));
        lemma_printable_concat(seq!['-'], nat_text(m));
    }
}

proof fn lemma_hex_printable(d: int)
    requires
        0 <= d < 16,
    ensures
        ' ' <= hex_char(d),
{
}

proof fn lemma_escape_printable(c: char)
    ensures
        printable(escaped(c)),
{
    if !(' ' <= c) {
        lemma_hex_printable(c as int / 16);
        lemma_hex_printable(c as int % 16);
    }
}

proof fn lemma_escaped_printable(s: Seq<char>)
    ensures
        printable(escaped_all(s)),
    decreases s.len(),
{
    if s.len() > 0 {
        lemma_escaped_printable(s.drop_last());
        let c = s.last();
        lemma_escape_printable(c);
        lemma_printable_concat(escaped_all(s.drop_last()), escaped(c));
    }
}

proof fn lemma_quoted_printable(s: Seq<char>)
    ensures
        printable(quoted(s)),
{
    lemma_escaped_printable(s);
    assert(printable(seq!['"']));
    lemma_printable_concat(seq!['"'], escaped_all(s));
    lemma_printable_concat(seq!['"'] + escaped_all(s), seq!['"']);
}

/// Canonical JSON is one line: it holds no control character.
pub proof fn canonical_text_is_printable(t: JsonTree, depth: nat)
    requires
        plain(t, depth),
    ensures
        printable(canonical_text(t)),
    decreases depth, 2nat, 0nat,
{
    match t {
        JsonTree::Null => {
            reveal_strlit("null");
        },
        JsonTree::Bool(_) => {
            reveal_strlit("true");
            reveal_strlit("false");
        },
        JsonTree::Number(n) => {
            let k = choose|k: int| i64::MIN <= k <= u64::MAX && n == #[trigger] int_text(k);
            lemma_digits_printable(k);
        },
        JsonTree::Text(s) => {
            lemma_quoted_printable(s);
        },
        JsonTree::Array(items) => {
            lemma_items_printable(items, (depth - 1) as nat);
            assert(printable(seq!['[']) && printable(seq![']']));
            lemma_printable_concat(seq!['['], items_text(items));
            lemma_printable_concat(seq!['['] + items_text(items), seq![']']);
        },
        JsonTree::Object(map) => {
            let keys = key_order(map);
            lemma_members_printable(map, keys, (depth - 1) as nat);
            assert(printable(seq!['{']) && printable(seq!['}']));
            lemma_printable_concat(seq!['{'], members_text(map, keys));
            lemma_printable_concat(seq!['{'] + members_text(map, keys), seq!['}']);
        },
    }
}

proof fn lemma_items_printable(items: Seq<JsonTree>, depth: nat)
    requires
        forall|i: int| 0 <= i < items.len() ==> plain(#[trigger] items[i], depth),
    ensures
        printable(items_text(items)),
    decreases depth, 3nat, items.len(),
{
    if items.len() == 1 {
        canonical_text_is_printable(items[0], depth);
    } else if items.len() > 1 {
        let front = items.drop_last();
        assert forall|i: int| 0 <= i < front.len() implies plain(#[trigger] front[i], depth) by {
            assert(front[i] == items[i]);
        }
        lemma_items_printable(front, depth);
        canonical_text_is_printable(items.last(), depth);
        assert(printable(seq![',']));
        lemma_printable_concat(items_text(front), seq![',']);
        lemma_printable_concat(items_text(front) + seq![','], canonical_text(items.last()));
    }
}

proof fn lemma_member_printable(map: Map<Seq<char>, JsonTree>, key: Seq<char>, depth: nat)
    requires
        forall|k: Seq<char>| map.contains_key(k) ==> plain(#[trigger] map[k], depth),
    ensures
        printable(member_text(map, key)),
    decreases depth, 3nat, 0nat,
{
    lemma_quoted_printable(key);
    assert(printable(seq![':']));
    lemma_printable_concat(quoted(key), seq![':']);
    if map.contains_key(key) {
        assert(plain(map[key], depth));
        canonical_text_is_printable(map[key], depth);
        lemma_printable_concat(quoted(key) + seq![':'], canonical_text(map[key]));
    }
}

proof fn lemma_members_printable(
    map: Map<Seq<char>, JsonTree>,
    keys: Seq<Seq<char>>,
    depth: nat,
)
    requires
        forall|k: Seq<char>| map.contains_key(k) ==> plain(#[trigger] map[k], depth),
    ensures
        printable(members_text(map, keys)),
    decreases depth, 4nat, keys.len(),
{
    if keys.len() == 1 {
        lemma_member_printable(map, keys[0], depth);
    } else if keys.len() > 1 {
        let front = keys.drop_last();
        lemma_members_printable(map, front, depth);
        lemma_member_printable(map, keys.last(), depth);
        assert(printable(seq![',']));
        lemma_printable_concat(members_text(map, front), seq![',']);
        lemma_printable_concat(
            members_text(map, front) + seq![','],
            member_text(map, keys.last()),
        );
    }
}

proof fn lemma_prefix()
    ensures
        "blake3:"@ == seq!['b', 'l', 'a', 'k', 'e', '3', ':'],
        printable("blake3:"@),
{
    reveal_strlit("blake3:");
    assert("blake3:"@ =~= seq!['b', 'l', 'a', 'k', 'e', '3', ':']);
}

proof fn lemma_hash_like_plain(s: Seq<char>)
    requires
        hash_like(s),
    ensures
        printable(s),
        !s.contains(','),
        s.len() > 0,
{
    lemma_prefix();
    let n = "blake3:"@.len() as int;
    assert forall|i: int| 0 <= i < s.len() implies ' ' <= #[trigger] s[i] && s[i] != ',' by {
        if i < n {
            assert(s.take(n)[i] == "blake3:"@[i]);
        } else {
            assert(hex_value(s[i]) is Some);
        }
    }
}

/// A computed hash is `blake3:` and the hexadecimal digits of the digest.
pub(crate) proof fn computed_hash_is_hash_like(fields: Seq<Seq<char>>)
    requires
        blake3_digest(vstd::utf8::encode_utf8(tabbed(fields).push('\n'))).len() > 0,
    ensures
        hash_like(line_hash(fields)),
{
    lemma_prefix();
    let bytes = blake3_digest(vstd::utf8::encode_utf8(tabbed(fields).push('\n')));
    let s = line_hash(fields);
    hex_reads_back(bytes);
    let n = "blake3:"@.len() as int;
    assert(s.take(n) =~= "blake3:"@);
    assert forall|i: int| n <= i < s.len() implies hex_value(#[trigger] s[i]) is Some by {
        assert(s[i] == hex_text(bytes)[i - n]);
    }
}

proof fn lemma_join_printable(parts: Seq<Seq<char>>)
    requires
        forall|i: int| 0 <= i < parts.len() ==> printable(#[trigger] parts[i]),
    ensures
        printable(join(parts, seq![','])),
    decreases parts.len(),
{
    if parts.len() > 1 {
        let front = parts.drop_last();
        assert forall|i: int| 0 <= i < front.len() implies printable(#[trigger] front[i]) by {
            assert(front[i] == parts[i]);
        }
        lemma_join_printable(front);
        assert(printable(seq![',']));
        lemma_printable_concat(join(front, seq![',']), seq![',']);
        lemma_printable_concat(join(front, seq![',']) + seq![','], parts.last());
    }
}

proof fn lemma_join_nonempty(parts: Seq<Seq<char>>, sep: Seq<char>)
    requires
        parts.len() > 0,
        parts[0].len() > 0,
    ensures
        join(parts, sep).len() > 0,
        join(parts, sep)[0] == parts[0][0],
    decreases parts.len(),
{
    if parts.len() > 1 {
        lemma_join_nonempty(parts.drop_last(), sep);
    }
}

proof fn lemma_parents(parents: Seq<Seq<char>>)
    requires
        forall|i: int| 0 <= i < parents.len() ==> hash_like(#[trigger] parents[i]),
    ensures
        printable(join(parents, seq![','])),
        parent_list(join(parents, seq![','])) == parents,
        first_bad_hash(parents) is None,
    decreases parents.len(),
{
    assert forall|i: int| 0 <= i < parents.len() implies printable(#[trigger] parents[i])
        && !parents[i].contains(',') by {
        lemma_hash_like_plain(parents[i]);
    }
    lemma_join_printable(parents);
    if parents.len() == 0 {
        assert(parents =~= Seq::empty());
    } else {
        lemma_hash_like_plain(parents[0]);
        lemma_join_nonempty(parents, seq![',']);
        split_undoes_join(parents, ',');
        let front = parents.drop_last();
        assert forall|i: int| 0 <= i < front.len() implies hash_like(#[trigger] front[i]) by {
            assert(front[i] == parents[i]);
        }
        lemma_parents(front);
    }
}

proof fn lemma_type_printable(event_type: EventType)
    ensures
        printable(event_type.name()),
{
    reveal_strlit("item.create");
    reveal_strlit("item.update");
    reveal_strlit("item.move");
    reveal_strlit("item.assign");
    reveal_strlit("item.comment");
    reveal_strlit("item.link");
    reveal_strlit("item.unlink");
    reveal_strlit("item.delete");
    reveal_strlit("item.compact");
    reveal_strlit("item.snapshot");
    reveal_strlit("item.redact");
}

proof fn lemma_id_printable(id: Seq<char>)
    requires
        valid_id(id),
    ensures
        printable(id),
{
    reveal_strlit("bn-");
    assert forall|i: int| 0 <= i < id.len() implies ' ' <= #[trigger] id[i] by {
        if i < 3 {
            assert(id.take(3)[i] == "bn-"@[i]);
        } else {
            assert(id_char(id[i]));
        }
    }
}

proof fn lemma_ends_kept(s: Seq<char>)
    requires
        s.len() > 0,
        s.last() != '\n',
        s.last() != '\r',
    ensures
        strip_line_end(s) == s,
        strip_line_end(s.push('\n')) == s,
        strip_line_end(s.push('\r').push('\n')) == s,
{
    let r = s.push('\r');
    assert(trim_end_char(s, '\n') == s);
    assert(trim_end_char(s, '\r') == s);
    assert(s.push('\n').drop_last() =~= s);
    assert(trim_end_char(s.push('\n'), '\n') == trim_end_char(s, '\n'));
    assert(r.drop_last() =~= s);
    assert(r.push('\n').drop_last() =~= r);
    assert(trim_end_char(r, '\n') == r);
    assert(trim_end_char(r.push('\n'), '\n') == trim_end_char(r, '\n'));
    assert(trim_end_char(r, '\r') == trim_end_char(s, '\r'));
}

proof fn lemma_join_last(parts: Seq<Seq<char>>, sep: Seq<char>)
    requires
        parts.len() > 0,
        parts.last().len() > 0,
    ensures
        join(parts, sep).len() > 0,
        join(parts, sep).last() == parts.last().last(),
{
}

/// The line of an event that can be written, whatever line end it has, is taken
/// apart into the event's fields, and these are read as that event.
pub proof fn written_event_is_read(e: EventView)
    requires
        e.writable(),
    ensures
        forall|line: Seq<char>| #[trigger]
            e.stands_in(line) ==> strip_line_end(line) == e.line(),
        !starts_with_char(e.line(), '#'),
        trim(e.line()).len() > 0,
        split_on(e.line(), '\t') == e.fields().push(e.event_hash),
        read_event_line(
            e.fields().push(e.event_hash),
            Ok(e.data.tree()),
            outline_of(e.data.tree()),
        ) == Ok::<EventView, ParseFault>(e),
{
    let f = e.fields().push(e.event_hash);
    let n = e.wall_ts_us as int;
    lemma_digits_printable(n);
    lemma_parents(e.parents);
    in_order_is_unique(e.parents, e.parents);
    lemma_type_printable(e.event_type);
    lemma_id_printable(e.item_id);
    canonical_text_is_printable(e.data.tree(), depth_limit());
    lemma_hash_like_plain(e.event_hash);
    lemma_prefix();
    assert forall|i: int| 0 <= i < f.len() implies !(#[trigger] f[i]).contains('\t') by {
        if i != 1 && i != 2 {
            lemma_printable_lacks(f[i], '\t');
        }
    }
    split_undoes_join(f, '\t');
    let line = e.line();
    lemma_join_last(f, seq!['\t']);
    lemma_join_nonempty(f, seq!['\t']);
    let c = line.last();
    assert(' ' <= c && c == e.event_hash.last());
    lemma_ends_kept(line);
    assert(!is_space(line[0]));
    assert(trim_start(line) == line);
    assert(hex_value(c) is Some);
    assert(!is_space(c));
    assert(trim_end(line) == line);
    int_text_reads_back(n);
    e.event_type.name_reads_back();
    payload_reads_back(e.data);
    readable_payload_has_no_flaw(e.event_type, e.data.tree());
    assert(hashed_fields(f, e.data.tree()) =~= e.fields());
    assert(f[0] == int_text(n) && f[1] == e.agent && f[2] == e.itc);
    assert(f[3] == join(e.parents, seq![',']) && f[4] == e.event_type.name());
    assert(f[5] == e.item_id && f[7] == e.event_hash);
}

/// An event is written as the one with its parents in order, and has the same
/// hash: what is read back of it has its parents in order.
pub proof fn parents_are_written_in_order(e: EventView)
    ensures
        e.ordered().line() == e.line(),
        e.ordered().computed_hash() == e.computed_hash(),
        sorted_texts(e.parents) ==> e.ordered() == e,
{
    in_order_is_sorted(e.parents);
    in_order_is_unique(in_order(e.parents), in_order(e.parents));
    if sorted_texts(e.parents) {
        in_order_is_unique(e.parents, e.parents);
    }
    assert(e.ordered().fields() =~= e.fields());
}

/// Whether events can be written one to a line.
pub open spec fn loggable(events: Seq<EventView>) -> bool {
    forall|i: int|
        0 <= i < events.len() ==> (#[trigger] events[i]).writable() && !events[i].itc.contains('\n')
}

/// A log of events: the header, then the line of each event.
pub open spec fn log_text(events: Seq<EventView>) -> Seq<char>
    decreases events.len(),
{
    if events.len() == 0 {
        SHARD_HEADER@.push('\n') + FIELD_COMMENT@.push('\n')
    } else {
        log_text(events.drop_last()) + events.last().line().push('\n')
    }
}

/// The lines of a log of events.
pub open spec fn log_lines(events: Seq<EventView>) -> Seq<Seq<char>> {
    seq![SHARD_HEADER@, FIELD_COMMENT@] + events.map_values(|e: EventView| e.line())
}

proof fn lemma_join_lacks(parts: Seq<Seq<char>>, sep: Seq<char>, c: char)
    requires
        forall|i: int| 0 <= i < parts.len() ==> !(#[trigger] parts[i]).contains(c),
        !sep.contains(c),
    ensures
        !join(parts, sep).contains(c),
    decreases parts.len(),
{
    if parts.len() > 1 {
        let front = parts.drop_last();
        assert forall|i: int| 0 <= i < front.len() implies !(#[trigger] front[i]).contains(c) by {
            assert(front[i] == parts[i]);
        }
        lemma_join_lacks(front, sep, c);
        let whole = join(parts, sep);
        let start = join(front, sep);
        if whole.contains(c) {
            let k = choose|k: int| 0 <= k < whole.len() && whole[k] == c;
            if k < start.len() {
                assert(start[k] == c);
            } else if k < start.len() + sep.len() {
                assert(sep[k - start.len()] == c);
            } else {
                assert(parts[parts.len() - 1][k - start.len() - sep.len()] == c);
            }
        }
    }
}

/// The line of an event that can be written does not look like a header.
pub(crate) proof fn lemma_no_header(e: EventView)
    requires
        e.writable(),
    ensures
        e.line().len() > 0,
        e.line()[0] != '#',
        trim_start(e.line()) == e.line(),
{
    written_event_is_read(e);
    let f = e.fields().push(e.event_hash);
    lemma_digits_printable(e.wall_ts_us as int);
    lemma_join_nonempty(f, seq!['\t']);
}

/// The line of an event that can be written is one line.
proof fn lemma_one_line(e: EventView)
    requires
        e.writable(),
        !e.itc.contains('\n'),
    ensures
        !e.line().contains('\n'),
        e.line().len() > 0,
        e.line().last() != '\r',
{
    written_event_is_read(e);
    let f = e.fields().push(e.event_hash);
    lemma_digits_printable(e.wall_ts_us as int);
    lemma_parents(e.parents);
    in_order_is_unique(e.parents, e.parents);
    lemma_type_printable(e.event_type);
    lemma_id_printable(e.item_id);
    canonical_text_is_printable(e.data.tree(), depth_limit());
    lemma_hash_like_plain(e.event_hash);
    lemma_prefix();
    assert forall|i: int| 0 <= i < f.len() implies !(#[trigger] f[i]).contains('\n') by {
        if i != 1 && i != 2 {
            lemma_printable_lacks(f[i], '\n');
        }
    }
    lemma_join_lacks(f, seq!['\t'], '\n');
    lemma_join_last(f, seq!['\t']);
    lemma_join_nonempty(f, seq!['\t']);
}

/// The lines of a log are the header and the lines of the events.
pub proof fn log_is_made_of_lines(events: Seq<EventView>)
    requires
        loggable(events),
    ensures
        lines(log_text(events)) == log_lines(events),
        log_text(events).len() > 0,
        log_text(events).last() == '\n',
    decreases events.len(),
{
    if events.len() == 0 {
        reveal_strlit("# bones event log v1");
        reveal_strlit(
            "# fields: wall_ts_us\tagent\titc\tparents\ttype\titem_id\tdata\tevent_hash",
        );
        let none = Seq::<char>::empty();
        assert(split_on(none, '\n') =~= seq![none]);
        assert(lines(none) =~= Seq::<Seq<char>>::empty());
        added_line_is_last(none, SHARD_HEADER@);
        assert(none + SHARD_HEADER@.push('\n') =~= SHARD_HEADER@.push('\n'));
        added_line_is_last(SHARD_HEADER@.push('\n'), FIELD_COMMENT@);
        assert(lines(log_text(events)) =~= log_lines(events));
    } else {
        let front = events.drop_last();
        let last = events.last();
        assert forall|i: int| 0 <= i < front.len() implies (#[trigger] front[i]).writable()
            && !front[i].itc.contains('\n') by {
            assert(front[i] == events[i]);
        }
        log_is_made_of_lines(front);
        assert(last == events[events.len() - 1]);
        lemma_one_line(last);
        added_line_is_last(log_text(front), last.line());
        assert(log_lines(front).push(last.line()) =~= log_lines(events));
    }
}

}
