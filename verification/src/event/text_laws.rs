//! What the texts of values, hashes and events promise of what they stand for.

use crate::event::canonical::{
    canonical_text, escaped, items_text, key_order, keys_are_in_order, member_text, members_text,
    quoted,
};
use crate::event::data::Payload;
use crate::event::hash_text::{
    base64_bytes, base64_char, base64_text, base64_value, hash_bytes, hex_bytes,
    hex_reads_back, hex_text, hex_value, BLAKE3_PREFIX,
};
use crate::event::json::{ascending, JsonTree};
use crate::event::{preview, previewable, EventView};
use crate::text::decimal::int_text;
use crate::text::slice::join;
use vstd::prelude::*;
use vstd::utf8::{
    decode_utf8, decode_utf8_encode_utf8, decode_utf8_split, encode_utf8, encode_utf8_decode_utf8,
    encode_utf8_valid_utf8, valid_utf8_split,
};

verus! {

/// The canonical texts of some values.
pub open spec fn texts_of(items: Seq<JsonTree>) -> Seq<Seq<char>> {
    Seq::new(items.len(), |i: int| canonical_text(items[i]))
}

/// The members of an object under some keys: each key as a JSON string, a colon and
/// the canonical text of the value.
pub open spec fn members_of(map: Map<Seq<char>, JsonTree>, keys: Seq<Seq<char>>) -> Seq<Seq<char>> {
    Seq::new(keys.len(), |i: int| quoted(keys[i]) + seq![':'] + canonical_text(map[keys[i]]))
}

/// The text of an array is that of its items, in their order, with commas between them
/// and square brackets round them.
pub proof fn array_text_is_its_items(items: Seq<JsonTree>)
    ensures
        canonical_text(JsonTree::Array(items)) == seq!['['] + join(texts_of(items), seq![','])
            + seq![']'],
{
    lemma_items_joined(items);
}

proof fn lemma_items_joined(items: Seq<JsonTree>)
    ensures
        items_text(items) == join(texts_of(items), seq![',']),
    decreases items.len(),
{
    if items.len() > 1 {
        lemma_items_joined(items.drop_last());
        assert(texts_of(items).drop_last() =~= texts_of(items.drop_last()));
    }
}

/// The text of an object is that of its members, with commas between them and curly
/// brackets round them. Every key stands in it once, in ascending order.
pub proof fn object_text_is_its_members(map: Map<Seq<char>, JsonTree>)
    requires
        map.dom().finite(),
    ensures
        exists|keys: Seq<Seq<char>>|
            {
                &&& #[trigger] ascending(keys)
                &&& keys.to_set() == map.dom()
                &&& canonical_text(JsonTree::Object(map)) == seq!['{'] + join(
                    members_of(map, keys),
                    seq![','],
                ) + seq!['}']
            },
{
    keys_are_in_order(map);
    let keys = key_order(map);
    assert forall|i: int| 0 <= i < keys.len() implies map.contains_key(#[trigger] keys[i]) by {
        assert(keys.to_set().contains(keys[i]));
    }
    lemma_members_joined(map, keys);
    assert(ascending(keys));
}

proof fn lemma_members_joined(map: Map<Seq<char>, JsonTree>, keys: Seq<Seq<char>>)
    requires
        map.dom().finite(),
        forall|i: int| 0 <= i < keys.len() ==> map.contains_key(#[trigger] keys[i]),
    ensures
        members_text(map, keys) == join(members_of(map, keys), seq![',']),
    decreases keys.len(),
{
    if keys.len() == 1 {
        assert(member_text(map, keys[0]) == members_of(map, keys)[0]);
    } else if keys.len() > 1 {
        let front = keys.drop_last();
        assert forall|i: int| 0 <= i < front.len() implies map.contains_key(
            #[trigger] front[i],
        ) by {
            assert(front[i] == keys[i]);
        }
        lemma_members_joined(map, front);
        assert(members_of(map, keys).drop_last() =~= members_of(map, front));
        assert(map.contains_key(keys[keys.len() - 1]));
        assert(member_text(map, keys.last()) == members_of(map, keys).last());
    }
}

/// The words for null, true and false are written as they are, and a number by its
/// digits.
pub proof fn plain_values_are_their_words(number: Seq<char>)
    ensures
        canonical_text(JsonTree::Null) == "null"@,
        canonical_text(JsonTree::Bool(true)) == "true"@,
        canonical_text(JsonTree::Bool(false)) == "false"@,
        canonical_text(JsonTree::Number(number)) == number,
{
}

/// Inside a JSON string every character stands for itself but quotes, backslashes and
/// control characters, which stand after a backslash: with a letter, or with `u` and
/// the four digits of the character's number.
pub proof fn escape_stands_for_its_character(c: char)
    ensures
        ' ' <= c && c != '"' && c != '\\' ==> escaped(c) == seq![c],
        c == '"' || c == '\\' ==> escaped(c) == seq!['\\', c],
        c < ' ' ==> escaped(c)[0] == '\\' && (escaped(c).len() == 2 || {
            &&& escaped(c).len() == 6
            &&& escaped(c)[1] == 'u'
            &&& hex_value(escaped(c)[2]) == Some(0int)
            &&& hex_value(escaped(c)[3]) == Some(0int)
            &&& hex_value(escaped(c)[4]) is Some
            &&& hex_value(escaped(c)[5]) is Some
            &&& hex_value(escaped(c)[4])->0 * 16 + hex_value(escaped(c)[5])->0 == c as int
        }),
        c < ' ' && escaped(c).len() == 2 ==> {
            ||| escaped(c)[1] == 'n' && c == '\n'
            ||| escaped(c)[1] == 'r' && c == '\r'
            ||| escaped(c)[1] == 't' && c == '\t'
            ||| escaped(c)[1] == 'b' && c as int == 8
            ||| escaped(c)[1] == 'f' && c as int == 12
        },
{
}

/// A JSON string of one more character is the string with that character written
/// before the closing quote.
pub proof fn quoted_text_grows_by_its_characters(s: Seq<char>, c: char)
    ensures
        quoted(s.push(c)) == quoted(s).drop_last() + escaped(c) + seq!['"'],
        quoted(Seq::empty()) == seq!['"', '"'],
{
    assert(s.push(c).drop_last() =~= s);
    assert(quoted(s.push(c)) =~= quoted(s).drop_last() + escaped(c) + seq!['"']);
    assert(quoted(Seq::empty()) =~= seq!['"', '"']);
}

/// The text of bytes has two small hexadecimal digits for each byte, the higher one
/// first.
pub proof fn hex_digits_are_of_their_bytes(bytes: Seq<u8>, i: int)
    requires
        0 <= i < bytes.len(),
    ensures
        hex_text(bytes).len() == 2 * bytes.len(),
        hex_value(hex_text(bytes)[2 * i]) == Some(bytes[i] as int / 16),
        hex_value(hex_text(bytes)[2 * i + 1]) == Some(bytes[i] as int % 16),
        !('A' <= hex_text(bytes)[2 * i] <= 'F'),
        !('A' <= hex_text(bytes)[2 * i + 1] <= 'F'),
    decreases bytes.len(),
{
    hex_reads_back(bytes);
    let front = bytes.drop_last();
    hex_reads_back(front);
    let s = hex_text(bytes);
    let t = hex_text(front);
    if i < front.len() {
        hex_digits_are_of_their_bytes(front, i);
        assert(s[2 * i] == t[2 * i]);
        assert(s[2 * i + 1] == t[2 * i + 1]);
    }
}

/// Four base64 digits are the bits of three bytes, in their order, six by six.
pub proof fn base64_digits_are_the_bits(bytes: Seq<u8>)
    requires
        bytes.len() >= 3,
    ensures
        ({
            let s = base64_text(bytes);
            let v = |i: int| base64_value(s[i])->0;
            &&& s.len() >= 4
            &&& forall|i: int| 0 <= i < 4 ==> base64_value(#[trigger] s[i]) is Some
            &&& v(0) * 262_144 + v(1) * 4_096 + v(2) * 64 + v(3) == bytes[0] as int * 65_536
                + bytes[1] as int * 256 + bytes[2] as int
            &&& s.skip(4) == base64_text(bytes.skip(3))
        }),
{
    let s = base64_text(bytes);
    let a = bytes[0] as int;
    let b = bytes[1] as int;
    let c = bytes[2] as int;
    assert(base64_value(base64_char(a / 4)) == Some(a / 4));
    assert(base64_value(base64_char(a % 4 * 16 + b / 16)) == Some(a % 4 * 16 + b / 16));
    assert(base64_value(base64_char(b % 16 * 4 + c / 64)) == Some(b % 16 * 4 + c / 64));
    assert(base64_value(base64_char(c % 64)) == Some(c % 64));
    assert(s.skip(4) =~= base64_text(bytes.skip(3)));
}

/// The base64 digits go by their values: capital letters, small letters, decimal
/// digits, then the minus sign and the underscore.
pub proof fn base64_digits_are_url_safe(d: int)
    requires
        0 <= d < 64,
    ensures
        base64_value(base64_char(d)) == Some(d),
        d < 26 <==> 'A' <= base64_char(d) <= 'Z',
        26 <= d < 52 <==> 'a' <= base64_char(d) <= 'z',
        52 <= d < 62 <==> '0' <= base64_char(d) <= '9',
        d == 62 <==> base64_char(d) == '-',
        d == 63 <==> base64_char(d) == '_',
{
}

/// A text that is read as a hash starts with the name of the hash function, and its
/// rest stands for the thirty-two bytes, in hexadecimal digits or in base64.
pub proof fn read_hash_is_in_its_text(raw: Seq<char>)
    requires
        hash_bytes(raw) is Some,
    ensures
        ({
            let hash = hash_bytes(raw)->0;
            let rest = raw.skip("blake3:"@.len() as int);
            &&& raw == "blake3:"@ + rest
            &&& hash.len() == 32
            &&& (rest.len() == 64 && hash == hex_bytes(rest)) || (
            base64_bytes(rest) == Some(hash))
        }),
{
    let n = BLAKE3_PREFIX@.len() as int;
    assert(raw =~= BLAKE3_PREFIX@ + raw.skip(n));
}

/// An event as text for people is its time, agent, type, item and hash and what its
/// payload says, with tabs between them.
pub proof fn event_text_is_its_fields(e: EventView)
    ensures
        e.text() == int_text(e.wall_ts_us as int) + "\t"@ + e.agent + "\t"@ + e.event_type.name()
            + "\t"@ + e.item_id + "\t"@ + e.event_hash + "\t"@ + e.abstract_text(),
{
    reveal_strlit("\t");
    assert("\t"@ =~= seq!['\t']);
    reveal_with_fuel(join, 7);
    let f = seq![
        int_text(e.wall_ts_us as int),
        e.agent,
        e.event_type.name(),
        e.item_id,
        e.event_hash,
        e.abstract_text(),
    ];
    assert(f.drop_last().drop_last().drop_last().drop_last().drop_last() =~= seq![f[0]]);
}

/// What is said of a payload ends with what it holds: the title of a new item, the
/// value of an update, the state of a move, the agent of an assignment, the target of
/// a link, or the hash of what is redacted.
pub proof fn payload_is_told_by_what_it_holds(e: EventView)
    ensures
        match e.data {
            Payload::Create(d) => tells_last(e.abstract_text(), d.title),
            Payload::Update(d) => tells_last(
                e.abstract_text(),
                d.field + "="@ + canonical_text(d.value),
            ),
            Payload::Move(d) => tells_last(e.abstract_text(), d.state.name()),
            Payload::Assign(d) => tells_last(e.abstract_text(), d.agent) && e.abstract_text().take(
                d.action.name().len() as int,
            ) == d.action.name(),
            Payload::Link(d) => tells_last(e.abstract_text(), d.link_type + " "@ + d.target),
            Payload::Unlink(d) => tells_last(e.abstract_text(), d.target),
            Payload::Redact(d) => tells_last(e.abstract_text(), d.target_hash),
            _ => true,
        },
{
    let t = e.abstract_text();
    match e.data {
        Payload::Create(d) => {
            assert(t =~= "create: "@ + d.title);
        },
        Payload::Update(d) => {
            assert(t =~= "update: "@ + (d.field + "="@ + canonical_text(d.value)));
        },
        Payload::Move(d) => {
            assert(t =~= "move: "@ + d.state.name());
        },
        Payload::Assign(d) => {
            assert(t =~= (d.action.name() + ": "@) + d.agent);
            assert(t.take(d.action.name().len() as int) =~= d.action.name());
        },
        Payload::Link(d) => {
            assert(t =~= "link: "@ + (d.link_type + " "@ + d.target));
        },
        Payload::Unlink(d) => {
            assert(t =~= "unlink: "@ + d.target);
        },
        Payload::Redact(d) => {
            assert(t =~= "redact: "@ + d.target_hash);
        },
        _ => {},
    }
}

/// What is shown of a long text is its start, forty bytes of it, and three dots. A text
/// of up to forty bytes is shown whole.
pub proof fn preview_is_the_start(s: Seq<char>)
    requires
        previewable(s),
    ensures
        encode_utf8(s).len() <= 40 ==> preview(s) == s,
        encode_utf8(s).len() > 40 ==> exists|start: Seq<char>, rest: Seq<char>|
            s == #[trigger] (start + rest) && encode_utf8(start).len() == 40 && preview(s) == start
                + "..."@,
{
    let bytes = encode_utf8(s);
    if bytes.len() > 40 {
        encode_utf8_valid_utf8(s);
        encode_utf8_decode_utf8(s);
        valid_utf8_split(bytes, 40);
        decode_utf8_split(bytes, 40);
        let start = decode_utf8(bytes.subrange(0, 40));
        let rest = decode_utf8(bytes.subrange(40, bytes.len() as int));
        decode_utf8_encode_utf8(bytes.subrange(0, 40));
        assert(s == start + rest);
    }
}

/// Whether a text ends with another.
pub open spec fn tells_last(s: Seq<char>, end: Seq<char>) -> bool {
    exists|start: Seq<char>| s == #[trigger] (start + end)
}

}
