//! The members of a JSON object as a text has them.
//!
//! A value holds each key once. A text can repeat a key, and which keys it repeats
//! is seen in the text alone.

use crate::event::canonical::{
    canonical_text, depth_limit, first_json, key_order, keys_are_in_order, member_text,
    members_text, plain, quoted, stands_first, take_first,
};
use crate::event::json::JsonTree;
use crate::text::decimal::{int_text, is_digit, nat_text_reads_back};
use crate::text::slice::{starts_with, starts_with_char, strip_char};
use vstd::prelude::*;

verus! {

/// White space between the parts of a JSON text.
pub open spec fn json_space(c: char) -> bool {
    c == ' ' || c == '\n' || c == '\t' || c == '\r'
}

/// A text without the white space at its start.
pub open spec fn past_space(s: Seq<char>) -> Seq<char>
    decreases s.len(),
{
    if s.len() > 0 && json_space(s[0]) {
        past_space(s.skip(1))
    } else {
        s
    }
}

/// What follows a character, if a text starts with it after white space.
pub open spec fn after_char(s: Seq<char>, c: char) -> Option<Seq<char>> {
    if starts_with_char(past_space(s), c) {
        Some(past_space(s).skip(1))
    } else {
        None
    }
}

/// The members that a text has from the key of one on: each key, with the text
/// from its value on.
pub open spec fn members_from(text: Seq<char>) -> Seq<(Seq<char>, Seq<char>)>
    decreases text.len(),
{
    match first_json(text) {
        Some((JsonTree::Text(key), after)) => match after_char(after, ':') {
            Some(value) => match first_json(value) {
                Some((_, rest)) => match after_char(rest, ',') {
                    Some(more) => if more.len() < text.len() {
                        seq![(key, value)] + members_from(more)
                    } else {
                        seq![(key, value)]
                    },
                    None => seq![(key, value)],
                },
                None => seq![(key, value)],
            },
            None => Seq::empty(),
        },
        _ => Seq::empty(),
    }
}

/// The members of the object that a text starts with; none if it starts with
/// something else.
pub open spec fn members_in(text: Seq<char>) -> Seq<(Seq<char>, Seq<char>)> {
    match after_char(text, '{') {
        Some(inside) => if after_char(inside, '}') is Some {
            Seq::empty()
        } else {
            members_from(inside)
        },
        None => Seq::empty(),
    }
}

/// How often each key stands in the object that a text starts with, and with what:
/// each key in its place, with the number of members that its value has.
pub open spec fn outline_in(text: Seq<char>) -> Seq<(Seq<char>, nat)> {
    members_in(text).map_values(|m: (Seq<char>, Seq<char>)| (m.0, members_in(m.1).len()))
}

/// The number of members of a value.
pub open spec fn size_of_value(t: JsonTree) -> nat {
    match t {
        JsonTree::Object(map) => key_order(map).len(),
        _ => 0,
    }
}

/// The outline of the canonical text of a value.
pub open spec fn outline_of(t: JsonTree) -> Seq<(Seq<char>, nat)> {
    match t {
        JsonTree::Object(map) => key_order(map).map_values(
            |k: Seq<char>| (k, size_of_value(map[k])),
        ),
        _ => Seq::empty(),
    }
}

/// Whether members are those of a value, and the text of each starts with the
/// canonical text of its value.
spec fn listed(members: Seq<(Seq<char>, Seq<char>)>, t: JsonTree) -> bool {
    match t {
        JsonTree::Object(map) => {
            let keys = key_order(map);
            &&& members.len() == keys.len()
            &&& forall|i: int|
                0 <= i < keys.len() ==> (#[trigger] members[i]).0 == keys[i] && starts_with(
                    members[i].1,
                    canonical_text(map[keys[i]]),
                )
        },
        _ => members.len() == 0,
    }
}

fn skip_space<'a>(s: &'a str) -> (r: &'a str)
    ensures
        r@ == past_space(s@),
        r@.len() <= s@.len(),
{
    let mut rest = s;
    loop
        invariant
            past_space(rest@) == past_space(s@),
            rest@.len() <= s@.len(),
        decreases rest@.len(),
    {
        if let Some(r) = strip_char(rest, ' ') {
            rest = r;
        } else if let Some(r) = strip_char(rest, '\n') {
            rest = r;
        } else if let Some(r) = strip_char(rest, '\t') {
            rest = r;
        } else if let Some(r) = strip_char(rest, '\r') {
            rest = r;
        } else {
            return rest;
        }
    }
}

fn strip_after_space<'a>(s: &'a str, c: char) -> (r: Option<&'a str>)
    ensures
        match r {
            Some(rest) => after_char(s@, c) == Some(rest@) && rest@.len() < s@.len(),
            None => after_char(s@, c) is None,
        },
{
    strip_char(skip_space(s), c)
}

/// What a member and those after it look like in canonical text.
proof fn lemma_members_start(map: Map<Seq<char>, JsonTree>, keys: Seq<Seq<char>>)
    requires
        keys.len() > 1,
    ensures
        members_text(map, keys) == member_text(map, keys[0]) + seq![','] + members_text(
            map,
            keys.skip(1),
        ),
    decreases keys.len(),
{
    let front = keys.drop_last();
    let rest = keys.skip(1);
    if keys.len() == 2 {
        assert(front =~= seq![keys[0]]);
        assert(rest =~= seq![keys[1]]);
        assert(members_text(map, front) == member_text(map, keys[0]));
        assert(members_text(map, rest) == member_text(map, keys[1]));
    } else {
        lemma_members_start(map, front);
        assert(front.skip(1) =~= rest.drop_last());
        assert(rest.last() == keys.last());
        assert(members_text(map, keys) =~= member_text(map, keys[0]) + seq![','] + members_text(
            map,
            rest,
        ));
    }
}

/// A text that starts with two texts in a row goes on with the second after the
/// first.
proof fn lemma_starts_in_parts(text: Seq<char>, a: Seq<char>, b: Seq<char>)
    requires
        starts_with(text, a + b),
    ensures
        starts_with(text, a),
        starts_with(text.skip(a.len() as int), b),
        forall|i: int|
            a.len() <= i < a.len() + b.len() ==> #[trigger] text[i] == b[i - a.len()],
{
    let whole = a + b;
    assert(text.take(whole.len() as int) == whole);
    assert(text.take(a.len() as int) =~= a) by {
        assert forall|i: int| 0 <= i < a.len() implies text[i] == a[i] by {
            assert(text.take(whole.len() as int)[i] == whole[i]);
        }
    }
    assert forall|i: int| a.len() <= i < a.len() + b.len() implies #[trigger] text[i] == b[i
        - a.len()] by {
        assert(text.take(whole.len() as int)[i] == whole[i]);
    }
    assert(text.skip(a.len() as int).take(b.len() as int) =~= b);
}

/// What the first value of members in canonical text is, and what follows it.
proof fn lemma_member_ahead(text: Seq<char>, map: Map<Seq<char>, JsonTree>, keys: Seq<Seq<char>>)
    requires
        keys.len() > 0,
        map.dom().finite(),
        map.contains_key(keys[0]),
        starts_with(text, members_text(map, keys) + seq!['}']),
    ensures
        ({
            let after = text.skip(quoted(keys[0]).len() as int);
            let value = after.skip(1);
            let rest = value.skip(canonical_text(map[keys[0]]).len() as int);
            &&& stands_first(text, JsonTree::Text(keys[0]))
            &&& after_char(after, ':') == Some(value)
            &&& stands_first(value, map[keys[0]])
            &&& starts_with(value, canonical_text(map[keys[0]]))
            &&& keys.len() == 1 ==> after_char(rest, ',') is None
            &&& keys.len() > 1 ==> after_char(rest, ',') == Some(rest.skip(1)) && starts_with(
                rest.skip(1),
                members_text(map, keys.skip(1)) + seq!['}'],
            )
        }),
{
    let key = quoted(keys[0]);
    let t = map[keys[0]];
    let tail = if keys.len() == 1 {
        seq!['}']
    } else {
        seq![','] + (members_text(map, keys.skip(1)) + seq!['}'])
    };
    let whole = key + (seq![':'] + (canonical_text(t) + tail));
    assert(member_text(map, keys[0]) == key + seq![':'] + canonical_text(t));
    assert(member_text(map, keys[0]) + tail =~= whole);
    if keys.len() > 1 {
        lemma_members_start(map, keys);
        assert(members_text(map, keys) + seq!['}'] =~= member_text(map, keys[0]) + tail);
    } else {
        assert(members_text(map, keys) == member_text(map, keys[0]));
    }
    lemma_starts_in_parts(text, key, seq![':'] + (canonical_text(t) + tail));
    let after = text.skip(key.len() as int);
    assert(text[key.len() as int] == ':');
    lemma_starts_in_parts(after, seq![':'], canonical_text(t) + tail);
    assert(after[0] == ':');
    let value = after.skip(1);
    lemma_starts_in_parts(value, canonical_text(t), tail);
    let rest = value.skip(canonical_text(t).len() as int);
    assert(value[canonical_text(t).len() as int] == tail[0]);
    assert(rest[0] == tail[0]);
    if keys.len() > 1 {
        lemma_starts_in_parts(rest, seq![','], members_text(map, keys.skip(1)) + seq!['}']);
    }
}

/// What is no object does not start like one.
proof fn lemma_starts_otherwise(text: Seq<char>, t: JsonTree)
    requires
        plain(t, depth_limit()),
        !(t is Object),
        starts_with(text, canonical_text(t)),
    ensures
        after_char(text, '{') is None,
{
    let s = canonical_text(t);
    match t {
        JsonTree::Null => {
            reveal_strlit("null");
        },
        JsonTree::Bool(_) => {
            reveal_strlit("true");
            reveal_strlit("false");
        },
        JsonTree::Number(n) => {
            let k = choose|k: int| i64::MIN <= k <= u64::MAX && n == #[trigger] int_text(k);
            if k < 0 {
                assert(s[0] == '-');
            } else {
                nat_text_reads_back(k as nat);
                assert(is_digit(s[0]));
            }
        },
        _ => {},
    }
    assert(text.take(s.len() as int)[0] == text[0]);
    assert(past_space(text) == text);
}

/// A value that nests no deeper than a limit nests no deeper than a higher one.
proof fn lemma_plain_deeper(t: JsonTree, depth: nat)
    requires
        plain(t, depth),
    ensures
        plain(t, depth + 1),
    decreases depth,
{
    match t {
        JsonTree::Array(items) => {
            assert forall|i: int| 0 <= i < items.len() implies plain(#[trigger] items[i], depth) by {
                lemma_plain_deeper(items[i], (depth - 1) as nat);
            }
        },
        JsonTree::Object(map) => {
            assert forall|k: Seq<char>| map.contains_key(k) implies plain(
                #[trigger] map[k],
                depth,
            ) by {
                lemma_plain_deeper(map[k], (depth - 1) as nat);
            }
        },
        _ => {},
    }
}

/// Whether a value that stands first in a text is read as what it is.
spec fn reads_first(text: Seq<char>) -> bool {
    forall|t: JsonTree|
        plain(t, depth_limit()) && #[trigger] stands_first(text, t) ==> first_json(text) == Some(
            (t, text.skip(canonical_text(t).len() as int)),
        )
}

/// Whether a text starts with an object that can be read.
spec fn object_ahead(text: Seq<char>, map: Map<Seq<char>, JsonTree>) -> bool {
    plain(JsonTree::Object(map), depth_limit()) && starts_with(
        text,
        canonical_text(JsonTree::Object(map)),
    )
}

/// Whether members are the first ones of an object, and the rest of a text has the
/// others.
spec fn so_far(
    members: Seq<(Seq<char>, Seq<char>)>,
    rest: Seq<char>,
    map: Map<Seq<char>, JsonTree>,
) -> bool {
    let keys = key_order(map);
    let n = members.len() as int;
    &&& n < keys.len()
    &&& forall|i: int|
        0 <= i < n ==> (#[trigger] members[i]).0 == keys[i] && starts_with(
            members[i].1,
            canonical_text(map[keys[i]]),
        )
    &&& starts_with(rest, members_text(map, keys.skip(n)) + seq!['}'])
}

/// The first members of an object are those after its bracket.
proof fn lemma_object_inside(text: Seq<char>, map: Map<Seq<char>, JsonTree>)
    requires
        object_ahead(text, map),
    ensures
        after_char(text, '{') is Some,
        ({
            let inside = after_char(text, '{')->0;
            let none = Seq::<(Seq<char>, Seq<char>)>::empty();
            if after_char(inside, '}') is Some {
                listed(none, JsonTree::Object(map))
            } else {
                so_far(none, inside, map)
            }
        }),
{
    let keys = key_order(map);
    let none = Seq::<(Seq<char>, Seq<char>)>::empty();
    let body = members_text(map, keys) + seq!['}'];
    keys_are_in_order(map);
    assert(canonical_text(JsonTree::Object(map)) =~= seq!['{'] + body);
    lemma_starts_in_parts(text, seq!['{'], body);
    assert(text.take(1)[0] == text[0]);
    assert(past_space(text) == text);
    let inside = text.skip(1);
    assert(inside.take(body.len() as int)[0] == inside[0]);
    if keys.len() > 0 {
        lemma_key_in_map(map, 0);
        assert(keys.skip(0) =~= keys);
        if keys.len() > 1 {
            lemma_members_start(map, keys);
        }
        assert(body[0] == '"');
        assert(past_space(inside) == inside);
    } else {
        assert(body[0] == '}');
        assert(past_space(inside) == inside);
    }
}

proof fn lemma_key_in_map(map: Map<Seq<char>, JsonTree>, i: int)
    requires
        map.dom().finite(),
        0 <= i < key_order(map).len(),
    ensures
        map.contains_key(key_order(map)[i]),
{
    keys_are_in_order(map);
    assert(key_order(map).to_set().contains(key_order(map)[i]));
}

/// The next key of an object is read, and its value comes after it.
proof fn lemma_next_key(
    members: Seq<(Seq<char>, Seq<char>)>,
    rest: Seq<char>,
    map: Map<Seq<char>, JsonTree>,
)
    requires
        plain(JsonTree::Object(map), depth_limit()),
        so_far(members, rest, map),
        reads_first(rest),
    ensures
        ({
            let key = key_order(map)[members.len() as int];
            let after = rest.skip(quoted(key).len() as int);
            &&& first_json(rest) == Some((JsonTree::Text(key), after))
            &&& after_char(after, ':') == Some(after.skip(1))
        }),
{
    let keys = key_order(map);
    let n = members.len() as int;
    lemma_key_in_map(map, n);
    assert(keys.skip(n)[0] == keys[n]);
    lemma_member_ahead(rest, map, keys.skip(n));
    assert(stands_first(rest, JsonTree::Text(keys[n])));
}

/// The next value of an object is read; after it comes the next member or the
/// end.
proof fn lemma_next_value(
    members: Seq<(Seq<char>, Seq<char>)>,
    rest: Seq<char>,
    map: Map<Seq<char>, JsonTree>,
    value: Seq<char>,
)
    requires
        plain(JsonTree::Object(map), depth_limit()),
        so_far(members, rest, map),
        value == rest.skip(quoted(key_order(map)[members.len() as int]).len() as int).skip(1),
        reads_first(value),
    ensures
        ({
            let more = members.push((key_order(map)[members.len() as int], value));
            &&& first_json(value) is Some
            &&& match after_char((first_json(value)->0).1, ',') {
                Some(next) => so_far(more, next, map),
                None => listed(more, JsonTree::Object(map)),
            }
        }),
{
    let keys = key_order(map);
    let n = members.len() as int;
    let more = members.push((keys[n], value));
    lemma_key_in_map(map, n);
    assert(keys.skip(n)[0] == keys[n]);
    lemma_member_ahead(rest, map, keys.skip(n));
    lemma_plain_deeper(map[keys[n]], (depth_limit() - 1) as nat);
    assert(stands_first(value, map[keys[n]]));
    assert(keys.skip(n).skip(1) =~= keys.skip(n + 1));
    assert forall|i: int| 0 <= i < more.len() implies (#[trigger] more[i]).0 == keys[i]
        && starts_with(more[i].1, canonical_text(map[keys[i]])) by {
        if i < n {
            assert(more[i] == members[i]);
        }
    }
}

/// Members that were listed, as plain values.
spec fn member_views(members: Seq<(String, &str)>) -> Seq<(Seq<char>, Seq<char>)> {
    members.map_values(|m: (String, &str)| (m.0@, m.1@))
}

/// Lists the members of the object that a text starts with.
fn list_members<'a>(text: &'a str) -> (r: Vec<(String, &'a str)>)
    ensures
        member_views(r@) == members_in(text@),
        forall|t: JsonTree|
            plain(t, depth_limit()) && starts_with(text@, #[trigger] canonical_text(t)) ==> listed(
                members_in(text@),
                t,
            ),
{
    let mut out: Vec<(String, &'a str)> = Vec::new();
    let ghost none = Seq::<(Seq<char>, Seq<char>)>::empty();
    proof {
        assert(member_views(out@) =~= none);
        assert forall|t: JsonTree|
            plain(t, depth_limit()) && starts_with(text@, #[trigger] canonical_text(t)) implies if t
            is Object {
            object_ahead(text@, t->Object_0)
        } else {
            after_char(text@, '{') is None
        } by {
            if !(t is Object) {
                lemma_starts_otherwise(text@, t);
            }
        }
        assert forall|map: Map<Seq<char>, JsonTree>| #[trigger] object_ahead(
            text@,
            map,
        ) implies after_char(text@, '{') is Some && if after_char(
            after_char(text@, '{')->0,
            '}',
        ) is Some {
            listed(none, JsonTree::Object(map))
        } else {
            so_far(none, after_char(text@, '{')->0, map)
        } by {
            lemma_object_inside(text@, map);
        }
    }
    let inside = match strip_after_space(text, '{') {
        Some(inside) => inside,
        None => return out,
    };
    if strip_after_space(inside, '}').is_some() {
        return out;
    }
    let mut rest = inside;
    proof {
        assert(member_views(out@) + members_from(rest@) =~= members_from(inside@));
    }
    loop
        invariant
            members_in(text@) == members_from(inside@),
            after_char(text@, '{') is Some,
            member_views(out@) + members_from(rest@) == members_from(inside@),
            forall|t: JsonTree|
                plain(t, depth_limit()) && starts_with(text@, #[trigger] canonical_text(t))
                    ==> t is Object && object_ahead(text@, t->Object_0),
            forall|map: Map<Seq<char>, JsonTree>| #[trigger]
                object_ahead(text@, map) ==> so_far(member_views(out@), rest@, map),
        decreases rest@.len(),
    {
        let ghost before = member_views(out@);
        let ghost start = rest@;
        let taken = take_first(rest);
        proof {
            assert(reads_first(start));
            assert forall|map: Map<Seq<char>, JsonTree>| #[trigger] object_ahead(
                text@,
                map,
            ) implies first_json(start) is Some && (first_json(start)->0).0 is Text && after_char(
                (first_json(start)->0).1,
                ':',
            ) is Some by {
                lemma_next_key(before, start, map);
            }
        }
        let (key, after) = match taken {
            Some((Some(key), after)) => (key, after),
            _ => {
                proof {
                    assert(members_from(start) =~= Seq::empty());
                    assert(before =~= members_from(inside@));
                }
                return out;
            },
        };
        let value = match strip_after_space(after, ':') {
            Some(value) => value,
            None => {
                proof {
                    assert(members_from(start) =~= Seq::empty());
                    assert(before =~= members_from(inside@));
                }
                return out;
            },
        };
        let ghost member = (key@, value@);
        out.push((key, value));
        let ghost more = member_views(out@);
        let taken = take_first(value);
        proof {
            assert(more =~= before.push(member));
            assert(reads_first(value@));
            assert forall|map: Map<Seq<char>, JsonTree>| #[trigger] object_ahead(
                text@,
                map,
            ) implies first_json(value@) is Some && match after_char(
                (first_json(value@)->0).1,
                ',',
            ) {
                Some(next) => so_far(more, next, map),
                None => listed(more, JsonTree::Object(map)),
            } by {
                lemma_next_key(before, start, map);
                lemma_next_value(before, start, map, value@);
            }
            assert(before + seq![member] =~= more);
        }
        let next = match taken {
            Some((_, next)) => next,
            None => {
                assert(members_from(start) =~= seq![member]);
                return out;
            },
        };
        match strip_after_space(next, ',') {
            Some(following) => {
                proof {
                    assert(members_from(start) == seq![member] + members_from(following@));
                    assert(before + (seq![member] + members_from(following@)) =~= more
                        + members_from(following@));
                }
                rest = following;
            },
            None => {
                assert(members_from(start) =~= seq![member]);
                return out;
            },
        }
    }
}

/// An outline as plain values.
pub open spec fn outline_view(outline: Seq<(String, usize)>) -> Seq<(Seq<char>, nat)> {
    outline.map_values(|m: (String, usize)| (m.0@, m.1 as nat))
}

/// Takes the outline of the object that a text starts with.
pub fn outline(text: &str) -> (r: Vec<(String, usize)>)
    ensures
        outline_view(r@) == outline_in(text@),
        forall|t: JsonTree|
            plain(t, depth_limit()) && text@ == #[trigger] canonical_text(t) ==> outline_view(r@)
                == outline_of(t),
{
    let members = list_members(text);
    let ghost all = members_in(text@);
    let mut out: Vec<(String, usize)> = Vec::new();
    let mut i: usize = 0;
    while i < members.len()
        invariant
            i <= members.len(),
            all == members_in(text@),
            member_views(members@) == all,
            out.len() == i,
            forall|k: int|
                0 <= k < i ==> (#[trigger] out@[k]).0@ == all[k].0 && out@[k].1 == members_in(
                    all[k].1,
                ).len(),
            forall|k: int, t: JsonTree|
                0 <= k < i && plain(t, depth_limit()) && starts_with(
                    (#[trigger] all[k]).1,
                    #[trigger] canonical_text(t),
                ) ==> listed(members_in(all[k].1), t),
        decreases members.len() - i,
    {
        let (key, value) = &members[i];
        assert(all[i as int] == (key@, value@));
        let inner = list_members(value);
        assert(member_views(inner@).len() == inner.len());
        out.push((key.clone(), inner.len()));
        i += 1;
    }
    proof {
        assert(outline_view(out@) =~= outline_in(text@));
        assert forall|t: JsonTree|
            plain(t, depth_limit()) && text@ == #[trigger] canonical_text(t) implies outline_view(
            out@,
        ) == outline_of(t) by {
            assert(text@.take(text@.len() as int) =~= text@);
            assert(listed(all, t));
            if let JsonTree::Object(map) = t {
                let keys = key_order(map);
                assert forall|k: int| 0 <= k < keys.len() implies #[trigger] outline_view(out@)[k]
                    == outline_of(t)[k] by {
                    assert(all[k].0 == keys[k]);
                    lemma_key_in_map(map, k);
                    lemma_plain_deeper(map[keys[k]], (depth_limit() - 1) as nat);
                    assert(starts_with(all[k].1, canonical_text(map[keys[k]])));
                    assert(listed(members_in(all[k].1), map[keys[k]]));
                    assert(out@[k].0@ == all[k].0);
                }
            }
            assert(outline_view(out@) =~= outline_of(t));
        }
    }
    out
}

}
