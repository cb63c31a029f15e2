//! Canonical JSON.
//!
//! Compact text with the keys of every object in lexicographic order, so that
//! one payload always gives the same bytes. Arrays keep their order.

use crate::event::json::{
    ascending, ascending_is_unique, entry_keys, entry_trees, trees, trees_by_index, JsonMap,
    JsonTree, JsonValue,
};
use crate::text::decimal::int_text;
use crate::text::order::{
    in_order, in_order_is_sorted, lex_lt, lex_lt_irreflexive, text_order,
};
use crate::text::set::to_set_of_push;
use vstd::prelude::*;

verus! {

/// A JSON value as `serde_json` holds it.
#[verifier::external_type_specification]
#[verifier::external_body]
pub struct ExJson(serde_json::Value);

/// One level of a JSON value that `serde_json` holds.
pub enum JsonNode<'a> {
    Null,
    Bool(bool),
    Number(String),
    Text(&'a String),
    Array(&'a Vec<serde_json::Value>),
    Object(Vec<(&'a String, &'a serde_json::Value)>),
}

/// The meaning of a value that `serde_json` holds.
pub uninterp spec fn value_tree(value: serde_json::Value) -> JsonTree;

/// What `serde_json::from_str` reads in a text, `None` where it refuses it.
pub uninterp spec fn parsed_json(text: Seq<char>) -> Option<JsonTree>;

/// What the stream of values that `serde_json::Deserializer` makes of a text gives
/// first, with the text behind it; `None` where it gives no value.
pub uninterp spec fn first_json(text: Seq<char>) -> Option<(JsonTree, Seq<char>)>;

/// How `serde_json::from_str` explains that it refuses a text.
pub uninterp spec fn json_error(text: Seq<char>) -> Seq<char>;

/// The keys of entries.
pub open spec fn node_keys(entries: Seq<(&String, &serde_json::Value)>) -> Seq<Seq<char>> {
    entries.map_values(|e: (&String, &serde_json::Value)| e.0@)
}

/// The keys of entries with the meaning of their values.
pub open spec fn node_entries(entries: Seq<(&String, &serde_json::Value)>) -> Map<
    Seq<char>,
    JsonTree,
>
    decreases entries.len(),
{
    if entries.len() == 0 {
        Map::empty()
    } else {
        node_entries(entries.drop_last()).insert(entries.last().0@, value_tree(*entries.last().1))
    }
}

/// The meaning of one level.
pub open spec fn node_tree(node: JsonNode) -> JsonTree {
    match node {
        JsonNode::Null => JsonTree::Null,
        JsonNode::Bool(b) => JsonTree::Bool(b),
        JsonNode::Number(n) => JsonTree::Number(n@),
        JsonNode::Text(s) => JsonTree::Text(s@),
        JsonNode::Array(items) => JsonTree::Array(
            items@.map_values(|v: serde_json::Value| value_tree(v)),
        ),
        JsonNode::Object(entries) => JsonTree::Object(node_entries(entries@)),
    }
}

/// The character for a value below sixteen.
pub open spec fn hex_char(d: int) -> char {
    if d < 10 {
        ('0' as int + d) as char
    } else {
        ('a' as int + (d - 10)) as char
    }
}

/// A character inside a JSON string.
pub open spec fn escaped(c: char) -> Seq<char> {
    if c == '"' {
        seq!['\\', '"']
    } else if c == '\\' {
        seq!['\\', '\\']
    } else if c == '\n' {
        seq!['\\', 'n']
    } else if c == '\r' {
        seq!['\\', 'r']
    } else if c == '\t' {
        seq!['\\', 't']
    } else if c == '\u{8}' {
        seq!['\\', 'b']
    } else if c == '\u{c}' {
        seq!['\\', 'f']
    } else if ' ' <= c {
        seq![c]
    } else {
        seq!['\\', 'u', '0', '0', hex_char(c as int / 16), hex_char(c as int % 16)]
    }
}

/// The characters inside a JSON string.
pub open spec fn escaped_all(s: Seq<char>) -> Seq<char>
    decreases s.len(),
{
    if s.len() == 0 {
        Seq::empty()
    } else {
        escaped_all(s.drop_last()) + escaped(s.last())
    }
}

/// A text as a JSON string.
pub open spec fn quoted(s: Seq<char>) -> Seq<char> {
    seq!['"'] + escaped_all(s) + seq!['"']
}

/// The keys of an object in ascending order.
pub open spec fn key_order(map: Map<Seq<char>, JsonTree>) -> Seq<Seq<char>> {
    choose|keys: Seq<Seq<char>>| #[trigger] ascending(keys) && keys.to_set() == map.dom()
}

/// The members of a finite set in some order, each once.
proof fn lemma_listed_once(set: Set<Seq<char>>) -> (list: Seq<Seq<char>>)
    requires
        set.finite(),
    ensures
        list.no_duplicates(),
        list.to_set() == set,
    decreases set.len(),
{
    if set.len() == 0 {
        let list = Seq::<Seq<char>>::empty();
        assert(list.to_set() =~= set);
        list
    } else {
        let x = set.choose();
        let rest = lemma_listed_once(set.remove(x));
        let list = rest.push(x);
        to_set_of_push(rest, x);
        assert(rest.to_set().insert(x) =~= set);
        assert(!rest.contains(x)) by {
            assert(rest.to_set().contains(x) == rest.contains(x));
        }
        list
    }
}

/// The keys of an object stand in its text in strictly ascending order, each of
/// them once.
pub proof fn keys_are_in_order(map: Map<Seq<char>, JsonTree>)
    requires
        map.dom().finite(),
    ensures
        ascending(key_order(map)),
        key_order(map).to_set() == map.dom(),
{
    let list = lemma_listed_once(map.dom());
    let keys = in_order(list);
    in_order_is_sorted(list);
    list.lemma_multiset_has_no_duplicates();
    keys.lemma_multiset_has_no_duplicates_conv();
    assert forall|k: Seq<char>| keys.contains(k) == list.contains(k) by {
        vstd::seq_lib::to_multiset_contains(keys, k);
        vstd::seq_lib::to_multiset_contains(list, k);
    }
    assert forall|k: Seq<char>| #[trigger] keys.to_set().contains(k) == map.dom().contains(k) by {
        assert(keys.contains(k) == list.contains(k));
        assert(list.to_set().contains(k) == list.contains(k));
    }
    assert(keys.to_set() =~= map.dom());
    assert forall|i: int, j: int| 0 <= i < j < keys.len() implies lex_lt(
        #[trigger] keys[i],
        #[trigger] keys[j],
    ) by {
        assert(text_order()(keys[i], keys[j]));
    }
    assert(ascending(keys) && keys.to_set() == map.dom());
}

/// The canonical text of a value.
pub open spec fn canonical_text(t: JsonTree) -> Seq<char>
    decreases t, 0nat,
{
    match t {
        JsonTree::Null => "null"@,
        JsonTree::Bool(b) => if b {
            "true"@
        } else {
            "false"@
        },
        JsonTree::Number(n) => n,
        JsonTree::Text(s) => quoted(s),
        JsonTree::Array(items) => seq!['['] + items_text(items) + seq![']'],
        JsonTree::Object(map) => seq!['{'] + members_text(map, key_order(map)) + seq!['}'],
    }
}

/// The canonical texts of a list, separated by commas.
pub open spec fn items_text(items: Seq<JsonTree>) -> Seq<char>
    decreases items, 0nat,
{
    if items.len() == 0 {
        Seq::empty()
    } else if items.len() == 1 {
        canonical_text(items[0])
    } else {
        items_text(items.drop_last()) + seq![','] + canonical_text(items.last())
    }
}

/// A key and the canonical text of its value.
pub open spec fn member_text(map: Map<Seq<char>, JsonTree>, key: Seq<char>) -> Seq<char>
    decreases map, 0nat,
{
    if map.dom().finite() && map.contains_key(key) {
        quoted(key) + seq![':'] + canonical_text(map[key])
    } else {
        quoted(key) + seq![':']
    }
}

/// The given keys with the canonical texts of their values, separated by commas.
pub open spec fn members_text(map: Map<Seq<char>, JsonTree>, keys: Seq<Seq<char>>) -> Seq<char>
    decreases map, keys.len() + 1,
{
    if keys.len() == 0 {
        Seq::empty()
    } else if keys.len() == 1 {
        member_text(map, keys[0])
    } else {
        members_text(map, keys.drop_last()) + seq![','] + member_text(map, keys.last())
    }
}

/// Whether a text is that of an integer of at most 64 bits.
pub open spec fn integer_text(s: Seq<char>) -> bool {
    exists|n: int| i64::MIN <= n <= u64::MAX && s == #[trigger] int_text(n)
}

/// Whether a value nests no deeper than `depth` and all its numbers are
/// integers.
pub open spec fn plain(t: JsonTree, depth: nat) -> bool
    decreases depth,
{
    match t {
        JsonTree::Number(n) => integer_text(n),
        JsonTree::Array(items) => depth > 0 && forall|i: int|
            0 <= i < items.len() ==> plain(#[trigger] items[i], (depth - 1) as nat),
        JsonTree::Object(map) => depth > 0 && map.dom().finite() && forall|k: Seq<char>|
            map.contains_key(k) ==> plain(#[trigger] map[k], (depth - 1) as nat),
        _ => true,
    }
}

/// How deep a JSON text may nest.
pub open spec fn depth_limit() -> nat {
    127
}

/// Calls `serde_json::from_str` for a `serde_json::Value`. What it reads, and
/// how it explains a refusal, depend on the text alone. A canonical text is
/// read back as the value that it was written from, where that value nests no
/// deeper than the reader goes and has integers for numbers.
#[verifier::external_body]
fn read_value(text: &str) -> (r: Result<serde_json::Value, String>)
    ensures
        match r {
            Ok(v) => parsed_json(text@) == Some(value_tree(v)),
            Err(e) => parsed_json(text@) is None && e@ == json_error(text@),
        },
        forall|t: JsonTree|
            plain(t, depth_limit()) && text@ == #[trigger] canonical_text(t) ==> r is Ok
                && value_tree(r->Ok_0) == t,
{
    match serde_json::from_str::<serde_json::Value>(text) {
        Ok(v) => Ok(v),
        Err(e) => Err(e.to_string()),
    }
}

/// Whether a text starts with the canonical text of a value, and goes on with a
/// character that ends a value inside an object.
pub open spec fn stands_first(text: Seq<char>, t: JsonTree) -> bool {
    let n = canonical_text(t).len() as int;
    &&& n < text.len()
    &&& text.take(n) == canonical_text(t)
    &&& text[n] == ',' || text[n] == ':' || text[n] == '}'
}

/// Calls `next` on the stream of values that `serde_json::Deserializer` makes of
/// a text. It skips white space, reads one value and stops behind it. A canonical
/// text is read back as the value that it was written from, where that value nests
/// no deeper than the reader goes and has integers for numbers.
#[verifier::external_body]
fn read_first<'a>(text: &'a str) -> (r: Option<(serde_json::Value, &'a str)>)
    ensures
        match r {
            Some((v, rest)) => first_json(text@) == Some((value_tree(v), rest@)) && rest@.len()
                < text@.len(),
            None => first_json(text@) is None,
        },
        forall|t: JsonTree|
            plain(t, depth_limit()) && #[trigger] stands_first(text@, t) ==> r is Some
                && value_tree((r->0).0) == t && (r->0).1@ == text@.skip(
                canonical_text(t).len() as int,
            ),
{
    let mut values = serde_json::Deserializer::from_str(text).into_iter::<serde_json::Value>();
    match values.next() {
        Some(Ok(v)) => Some((v, &text[values.byte_offset()..])),
        _ => None,
    }
}

/// Takes the first value off a text: the text that it is, if it is one, and what
/// follows it.
pub(crate) fn take_first<'a>(text: &'a str) -> (r: Option<(Option<String>, &'a str)>)
    ensures
        match r {
            Some((Some(s), rest)) => first_json(text@) == Some((JsonTree::Text(s@), rest@)),
            Some((None, rest)) => first_json(text@) is Some && !((first_json(text@)->0).0 is Text)
                && (first_json(text@)->0).1 == rest@,
            None => first_json(text@) is None,
        },
        r is Some ==> (r->0).1@.len() < text@.len(),
        forall|t: JsonTree|
            plain(t, depth_limit()) && #[trigger] stands_first(text@, t) ==> first_json(text@)
                == Some((t, text@.skip(canonical_text(t).len() as int))),
{
    match read_first(text) {
        Some((v, rest)) => match open_value(&v) {
            JsonNode::Text(s) => Some((Some(s.clone()), rest)),
            _ => Some((None, rest)),
        },
        None => None,
    }
}

/// Opens one level of a `serde_json::Value`. A number is given as its text, the
/// entries of an object (`serde_json::Map::iter`) in the order of their keys.
#[verifier::external_body]
fn open_value<'a>(value: &'a serde_json::Value) -> (r: JsonNode<'a>)
    ensures
        node_tree(r) == value_tree(*value),
        r matches JsonNode::Object(entries) ==> ascending(
            node_keys(entries@),
        ),
{
    match value {
        serde_json::Value::Null => JsonNode::Null,
        serde_json::Value::Bool(b) => JsonNode::Bool(*b),
        serde_json::Value::Number(n) => JsonNode::Number(n.to_string()),
        serde_json::Value::String(s) => JsonNode::Text(s),
        serde_json::Value::Array(items) => JsonNode::Array(items),
        serde_json::Value::Object(map) => JsonNode::Object(map.iter().collect()),
    }
}

/// Calls `serde_json::to_string` on a text: the text between quotes, with
/// quotes, backslashes and control characters escaped.
#[verifier::external_body]
fn quoted_text(s: &str) -> (r: String)
    ensures
        r@ == quoted(s@),
{
    serde_json::to_string(s).expect("string serialization cannot fail")
}

/// What a value that `serde_json` holds means, as a value of this crate.
fn plain_value(value: &serde_json::Value) -> (r: JsonValue)
    ensures
        r.tree() == value_tree(*value),
    decreases value_tree(*value),
{
    match open_value(value) {
        JsonNode::Null => JsonValue::Null,
        JsonNode::Bool(b) => JsonValue::Bool(b),
        JsonNode::Number(n) => JsonValue::Number(n),
        JsonNode::Text(s) => JsonValue::Text(s.clone()),
        JsonNode::Array(items) => {
            let ghost all = items@.map_values(|v: serde_json::Value| value_tree(v));
            let mut out: Vec<JsonValue> = Vec::new();
            let mut i: usize = 0;
            while i < items.len()
                invariant
                    i <= items.len(),
                    all == items@.map_values(|v: serde_json::Value| value_tree(v)),
                    value_tree(*value) == JsonTree::Array(all),
                    trees(out@) =~= all.take(i as int),
                decreases items.len() - i,
            {
                proof {
                    assert(decreases_to!(value_tree(*value) => value_tree(*value)->Array_0));
                    assert(decreases_to!(all => all[i as int]));
                    assert(all[i as int] == value_tree(items@[i as int]));
                }
                let ghost before = out@;
                out.push(plain_value(&items[i]));
                assert(out@.drop_last() =~= before);
                assert(all.take(i + 1) =~= all.take(i as int).push(all[i as int]));
                i += 1;
            }
            assert(all.take(i as int) =~= all);
            JsonValue::Array(out)
        },
        JsonNode::Object(entries) => {
            let ghost keys = node_keys(entries@);
            let ghost all = node_entries(entries@);
            proof {
                lemma_node_entries(entries@);
            }
            let mut out: Vec<(String, JsonValue)> = Vec::new();
            let mut i: usize = 0;
            while i < entries.len()
                invariant
                    i <= entries.len(),
                    all == node_entries(entries@),
                    keys == node_keys(entries@),
                    value_tree(*value) == JsonTree::Object(all),
                    all.dom().finite(),
                    forall|k: int|
                        0 <= k < entries@.len() ==> all.contains_key(#[trigger] keys[k]),
                    forall|k: int|
                        0 <= k < entries@.len() ==> all[#[trigger] keys[k]] == value_tree(
                            *entries@[k].1,
                        ),
                    ascending(keys),
                    entry_keys(out@) =~= keys.take(i as int),
                    entry_trees(out@) == node_entries(entries@.take(i as int)),
                decreases entries.len() - i,
            {
                proof {
                    let key = keys[i as int];
                    assert(all.contains_key(key));
                    assert(all[key] == value_tree(*entries@[i as int].1));
                    assert(decreases_to!(value_tree(*value) => value_tree(*value)->Object_0));
                    assert(decreases_to!(all => all[key]));
                }
                let ghost before = out@;
                out.push((entries[i].0.clone(), plain_value(entries[i].1)));
                proof {
                    assert(out@.drop_last() =~= before);
                    assert(entries@.take(i + 1).drop_last() =~= entries@.take(i as int));
                    assert(entries@.take(i + 1).last() == entries@[i as int]);
                    assert(keys.take(i + 1) =~= keys.take(i as int).push(keys[i as int]));
                }
                i += 1;
            }
            proof {
                assert(entries@.take(i as int) =~= entries@);
                assert(keys.take(i as int) =~= keys);
            }
            JsonValue::Object(JsonMap::from_entries(out))
        },
    }
}

/// What entries in the order of their keys mean, one by one.
proof fn lemma_node_entries(entries: Seq<(&String, &serde_json::Value)>)
    requires
        ascending(node_keys(entries)),
    ensures
        node_entries(entries).dom().finite(),
        forall|k: int|
            0 <= k < entries.len() ==> node_entries(entries).contains_key(
                #[trigger] node_keys(entries)[k],
            ),
        forall|k: int|
            0 <= k < entries.len() ==> node_entries(entries)[#[trigger] node_keys(entries)[k]]
                == value_tree(*entries[k].1),
    decreases entries.len(),
{
    if entries.len() > 0 {
        let rest = entries.drop_last();
        let keys = node_keys(entries);
        let n = entries.len() - 1;
        assert(node_keys(rest) =~= keys.drop_last());
        lemma_node_entries(rest);
        assert forall|k: int| 0 <= k < entries.len() implies node_entries(entries).contains_key(
            #[trigger] keys[k],
        ) && node_entries(entries)[keys[k]] == value_tree(*entries[k].1) by {
            if k < n {
                assert(node_keys(rest)[k] == keys[k]);
                assert(rest[k] == entries[k]);
                assert(lex_lt(keys[k], keys[n]));
                lex_lt_irreflexive(keys[n]);
            }
        }
    }
}

/// Reads a JSON text; explains why if it is not one.
pub fn parse_json(text: &str) -> (r: Result<JsonValue, String>)
    ensures
        match r {
            Ok(v) => parsed_json(text@) == Some(v.tree()),
            Err(e) => parsed_json(text@) is None && e@ == json_error(text@),
        },
        forall|t: JsonTree|
            plain(t, depth_limit()) && text@ == #[trigger] canonical_text(t) ==> r is Ok
                && r->Ok_0.tree() == t,
{
    match read_value(text) {
        Ok(v) => Ok(plain_value(&v)),
        Err(e) => Err(e),
    }
}

fn write_canonical(value: &JsonValue, buf: &mut String)
    ensures
        final(buf)@ == old(buf)@ + canonical_text(value.tree()),
    decreases value,
{
    match value {
        JsonValue::Null => {
            buf.append("null");
        },
        JsonValue::Bool(b) => {
            if *b {
                buf.append("true");
            } else {
                buf.append("false");
            }
        },
        JsonValue::Number(n) => {
            buf.append(n.as_str());
        },
        JsonValue::Text(s) => {
            buf.append(quoted_text(s.as_str()).as_str());
        },
        JsonValue::Array(items) => {
            let ghost start = buf@;
            let ghost all = trees(items@);
            proof {
                trees_by_index(items@);
            }
            buf.push('[');
            let mut i: usize = 0;
            assert(buf@ =~= start + seq!['['] + items_text(all.take(0)));
            while i < items.len()
                invariant
                    i <= items.len(),
                    *value == JsonValue::Array(*items),
                    all == trees(items@),
                    all.len() == items.len(),
                    forall|k: int| 0 <= k < items.len() ==> #[trigger] all[k] == items@[k].tree(),
                    buf@ == start + seq!['['] + items_text(all.take(i as int)),
                decreases items.len() - i,
            {
                if i > 0 {
                    buf.push(',');
                }
                proof {
                    assert(decreases_to!(*value => value->Array_0));
                    assert(decreases_to!(*items => items@));
                    assert(decreases_to!(items@ => items@[i as int]));
                    let next = all.take(i + 1);
                    assert(next.drop_last() =~= all.take(i as int));
                    assert(next.last() == all[i as int]);
                    if i == 0 {
                        assert(next[0] == all[0]);
                        assert(items_text(all.take(0)) =~= Seq::empty());
                    }
                }
                let ghost before = buf@;
                write_canonical(&items[i], buf);
                assert(buf@ =~= start + seq!['['] + items_text(all.take(i + 1)));
                i += 1;
            }
            assert(all.take(i as int) =~= all);
            buf.push(']');
            assert(buf@ =~= start + canonical_text(value.tree()));
        },
        JsonValue::Object(map) => {
            let ghost start = buf@;
            let n = map.len();
            let ghost keys = map.keys();
            let ghost all = map.meaning();
            proof {
                assert(ascending(keys) && keys.to_set() == all.dom());
                ascending_is_unique(keys, key_order(all));
            }
            buf.push('{');
            let mut i: usize = 0;
            assert(buf@ =~= start + seq!['{'] + members_text(all, keys.take(0)));
            while i < n
                invariant
                    i <= n,
                    n == keys.len(),
                    keys == map.keys(),
                    all == map.meaning(),
                    all.dom().finite(),
                    *value == JsonValue::Object(*map),
                    buf@ == start + seq!['{'] + members_text(all, keys.take(i as int)),
                decreases n - i,
            {
                if i > 0 {
                    buf.push(',');
                }
                buf.append(quoted_text(map.key_at(i).as_str()).as_str());
                buf.push(':');
                let member = map.value_at(i);
                proof {
                    assert(decreases_to!(*value => value->Object_0));
                    assert(value->Object_0 == *map);
                    let next = keys.take(i + 1);
                    assert(next.drop_last() =~= keys.take(i as int));
                    assert(next.last() == keys[i as int]);
                    if i == 0 {
                        assert(next[0] == keys[0]);
                        assert(members_text(all, keys.take(0)) =~= Seq::empty());
                    }
                }
                write_canonical(member, buf);
                proof {
                    let key = keys[i as int];
                    assert(member_text(all, key) == quoted(key) + seq![':'] + canonical_text(
                        all[key],
                    ));
                }
                assert(buf@ =~= start + seq!['{'] + members_text(all, keys.take(i + 1)));
                i += 1;
            }
            assert(keys.take(i as int) =~= keys);
            buf.push('}');
            assert(buf@ =~= start + canonical_text(value.tree()));
        },
    }
}

/// Produces the canonical text of a value: compact, with the keys of every
/// object in lexicographic order.
#[must_use]
pub fn canonicalize_json(value: &JsonValue) -> (r: String)
    ensures
        r@ == canonical_text(value.tree()),
{
    let mut buf = String::new();
    write_canonical(value, &mut buf);
    assert(buf@ =~= canonical_text(value.tree()));
    buf
}

/// Whether a JSON text is made canonical with this result: the canonical text
/// of what it reads as, which is the text itself where that is canonical.
pub open spec fn made_canonical(json: Seq<char>, r: Result<String, String>) -> bool {
    &&& match r {
        Ok(text) => parsed_json(json) is Some && text@ == canonical_text(parsed_json(json)->0),
        Err(e) => parsed_json(json) is None && e@ == json_error(json),
    }
    &&& forall|t: JsonTree|
        plain(t, depth_limit()) && json == #[trigger] canonical_text(t) ==> r is Ok && r->Ok_0@
            == json && parsed_json(json) == Some(t)
}

/// Produces the canonical text of a JSON text; explains why if it is not one.
pub fn canonicalize_json_str(json: &str) -> (r: Result<String, String>)
    ensures
        made_canonical(json@, r),
{
    match parse_json(json) {
        Ok(value) => Ok(canonicalize_json(&value)),
        Err(e) => Err(e),
    }
}

/// A canonical text that is made canonical again stays as it is, where its
/// numbers are integers.
pub proof fn canonical_again_is_the_same(
    json: Seq<char>,
    once: Result<String, String>,
    twice: Result<String, String>,
)
    requires
        made_canonical(json, once),
        once is Ok,
        plain(parsed_json(json)->0, depth_limit()),
        made_canonical(once->Ok_0@, twice),
    ensures
        twice is Ok,
        twice->Ok_0@ == once->Ok_0@,
{
    assert(once->Ok_0@ == canonical_text(parsed_json(json)->0));
}

}
