//! Canonical text is compact: no white space stands between its parts.

use crate::event::canonical::{
    canonical_text, depth_limit, escaped, escaped_all, hex_char, items_text, key_order,
    keys_are_in_order, made_canonical, member_text, members_text, parsed_json, plain, quoted,
};
use crate::event::json::{ascending, JsonTree};
use crate::event::members::json_space;
use crate::text::decimal::{int_text, is_digit, nat_text, nat_text_reads_back};
use vstd::prelude::*;

verus! {

/// A place in a JSON text.
pub ghost enum Place {
    /// Outside strings.
    Outside,
    /// Inside a string.
    Inside,
    /// Inside a string, behind a backslash.
    Escaped,
}

/// The place behind some characters, if no white space among them stands outside
/// strings.
pub open spec fn place_after(from: Option<Place>, s: Seq<char>) -> Option<Place>
    decreases s.len(),
{
    if s.len() == 0 {
        from
    } else {
        let c = s.last();
        match place_after(from, s.drop_last()) {
            None => None,
            Some(Place::Outside) => if c == '"' {
                Some(Place::Inside)
            } else if json_space(c) {
                None
            } else {
                Some(Place::Outside)
            },
            Some(Place::Inside) => if c == '"' {
                Some(Place::Outside)
            } else if c == '\\' {
                Some(Place::Escaped)
            } else {
                Some(Place::Inside)
            },
            Some(Place::Escaped) => Some(Place::Inside),
        }
    }
}

/// Whether a text closes its strings and has no white space outside them.
pub open spec fn compact(s: Seq<char>) -> bool {
    place_after(Some(Place::Outside), s) == Some(Place::Outside)
}

proof fn lemma_place_in_parts(from: Option<Place>, a: Seq<char>, b: Seq<char>)
    ensures
        place_after(from, a + b) == place_after(place_after(from, a), b),
    decreases b.len(),
{
    if b.len() == 0 {
        assert(a + b =~= a);
    } else {
        lemma_place_in_parts(from, a, b.drop_last());
        assert((a + b).drop_last() =~= a + b.drop_last());
    }
}

/// A character is one step.
proof fn lemma_place_of_one(from: Option<Place>, c: char)
    ensures
        place_after(from, seq![c]) == match from {
            None => None,
            Some(Place::Outside) => if c == '"' {
                Some(Place::Inside)
            } else if json_space(c) {
                None
            } else {
                Some(Place::Outside)
            },
            Some(Place::Inside) => if c == '"' {
                Some(Place::Outside)
            } else if c == '\\' {
                Some(Place::Escaped)
            } else {
                Some(Place::Inside)
            },
            Some(Place::Escaped) => Some(Place::Inside),
        },
{
    assert(seq![c].drop_last() =~= Seq::empty());
    assert(place_after(from, seq![c].drop_last()) == from);
}

proof fn lemma_compact_parts(a: Seq<char>, b: Seq<char>)
    requires
        compact(a),
        compact(b),
    ensures
        compact(a + b),
{
    lemma_place_in_parts(Some(Place::Outside), a, b);
}

/// Characters that are neither quotes nor white space are compact.
proof fn lemma_compact_word(s: Seq<char>)
    requires
        forall|i: int| 0 <= i < s.len() ==> (#[trigger] s[i]) != '"' && !json_space(s[i]),
    ensures
        compact(s),
    decreases s.len(),
{
    if s.len() > 0 {
        let front = s.drop_last();
        assert forall|i: int| 0 <= i < front.len() implies (#[trigger] front[i]) != '"'
            && !json_space(front[i]) by {
            assert(front[i] == s[i]);
        }
        lemma_compact_word(front);
    }
}

proof fn lemma_escaped_stays_inside(c: char)
    ensures
        place_after(Some(Place::Inside), escaped(c)) == Some(Place::Inside),
{
    let inside = Some(Place::Inside);
    let e = escaped(c);
    lemma_place_of_one(inside, e[0]);
    if e.len() == 1 {
        assert(e =~= seq![c]);
    } else {
        let head = seq![e[0], e[1]];
        lemma_place_of_one(Some(Place::Escaped), e[1]);
        lemma_place_in_parts(inside, seq![e[0]], seq![e[1]]);
        assert(head =~= seq![e[0]] + seq![e[1]]);
        if e.len() == 2 {
            assert(e =~= head);
        } else {
            let high = hex_char(c as int / 16);
            let low = hex_char(c as int % 16);
            assert(high != '"' && high != '\\' && low != '"' && low != '\\');
            lemma_place_of_one(inside, '0');
            lemma_place_of_one(inside, high);
            lemma_place_of_one(inside, low);
            let upto = head + seq!['0'];
            lemma_place_in_parts(inside, head, seq!['0']);
            lemma_place_in_parts(inside, upto, seq!['0']);
            lemma_place_in_parts(inside, upto + seq!['0'], seq![high]);
            lemma_place_in_parts(inside, upto + seq!['0'] + seq![high], seq![low]);
            assert(e =~= upto + seq!['0'] + seq![high] + seq![low]);
        }
    }
}

proof fn lemma_escaped_all_stays_inside(s: Seq<char>)
    ensures
        place_after(Some(Place::Inside), escaped_all(s)) == Some(Place::Inside),
    decreases s.len(),
{
    if s.len() > 0 {
        lemma_escaped_all_stays_inside(s.drop_last());
        lemma_escaped_stays_inside(s.last());
        lemma_place_in_parts(
            Some(Place::Inside),
            escaped_all(s.drop_last()),
            escaped(s.last()),
        );
    }
}

proof fn lemma_quoted_is_compact(s: Seq<char>)
    ensures
        compact(quoted(s)),
{
    let outside = Some(Place::Outside);
    lemma_place_of_one(outside, '"');
    lemma_escaped_all_stays_inside(s);
    lemma_place_of_one(Some(Place::Inside), '"');
    lemma_place_in_parts(outside, seq!['"'], escaped_all(s));
    lemma_place_in_parts(outside, seq!['"'] + escaped_all(s), seq!['"']);
}

proof fn lemma_number_is_compact(n: int)
    ensures
        compact(int_text(n)),
{
    let digits = if n < 0 {
        nat_text((-n) as nat)
    } else {
        nat_text(n as nat)
    };
    nat_text_reads_back(if n < 0 {
        (-n) as nat
    } else {
        n as nat
    });
    let s = int_text(n);
    assert forall|i: int| 0 <= i < s.len() implies (#[trigger] s[i]) != '"' && !json_space(
        s[i],
    ) by {
        let k: int = if n < 0 {
            i - 1
        } else {
            i
        };
        if k >= 0 {
            assert(s[i] == digits[k]);
            assert(is_digit(digits[k]));
        }
    }
    lemma_compact_word(s);
}

/// Canonical text has no white space outside strings.
pub proof fn canonical_text_is_compact(t: JsonTree, depth: nat)
    requires
        plain(t, depth),
    ensures
        compact(canonical_text(t)),
    decreases depth, 2nat, 0nat,
{
    match t {
        JsonTree::Null => {
            reveal_strlit("null");
            lemma_compact_word("null"@);
        },
        JsonTree::Bool(_) => {
            reveal_strlit("true");
            reveal_strlit("false");
            lemma_compact_word("true"@);
            lemma_compact_word("false"@);
        },
        JsonTree::Number(n) => {
            let k = choose|k: int| i64::MIN <= k <= u64::MAX && n == #[trigger] int_text(k);
            lemma_number_is_compact(k);
        },
        JsonTree::Text(s) => {
            lemma_quoted_is_compact(s);
        },
        JsonTree::Array(items) => {
            lemma_items_are_compact(items, (depth - 1) as nat);
            lemma_compact_word(seq!['[']);
            lemma_compact_word(seq![']']);
            lemma_compact_parts(seq!['['], items_text(items));
            lemma_compact_parts(seq!['['] + items_text(items), seq![']']);
        },
        JsonTree::Object(map) => {
            let keys = key_order(map);
            lemma_members_are_compact(map, keys, (depth - 1) as nat);
            lemma_compact_word(seq!['{']);
            lemma_compact_word(seq!['}']);
            lemma_compact_parts(seq!['{'], members_text(map, keys));
            lemma_compact_parts(seq!['{'] + members_text(map, keys), seq!['}']);
        },
    }
}

proof fn lemma_items_are_compact(items: Seq<JsonTree>, depth: nat)
    requires
        forall|i: int| 0 <= i < items.len() ==> plain(#[trigger] items[i], depth),
    ensures
        compact(items_text(items)),
    decreases depth, 3nat, items.len(),
{
    if items.len() == 1 {
        canonical_text_is_compact(items[0], depth);
    } else if items.len() > 1 {
        let front = items.drop_last();
        assert forall|i: int| 0 <= i < front.len() implies plain(#[trigger] front[i], depth) by {
            assert(front[i] == items[i]);
        }
        lemma_items_are_compact(front, depth);
        canonical_text_is_compact(items.last(), depth);
        lemma_compact_word(seq![',']);
        lemma_compact_parts(items_text(front), seq![',']);
        lemma_compact_parts(items_text(front) + seq![','], canonical_text(items.last()));
    }
}

proof fn lemma_member_is_compact(map: Map<Seq<char>, JsonTree>, key: Seq<char>, depth: nat)
    requires
        forall|k: Seq<char>| map.contains_key(k) ==> plain(#[trigger] map[k], depth),
    ensures
        compact(member_text(map, key)),
    decreases depth, 3nat, 0nat,
{
    lemma_quoted_is_compact(key);
    lemma_compact_word(seq![':']);
    lemma_compact_parts(quoted(key), seq![':']);
    if map.contains_key(key) {
        canonical_text_is_compact(map[key], depth);
        lemma_compact_parts(quoted(key) + seq![':'], canonical_text(map[key]));
    }
}

proof fn lemma_members_are_compact(
    map: Map<Seq<char>, JsonTree>,
    keys: Seq<Seq<char>>,
    depth: nat,
)
    requires
        forall|k: Seq<char>| map.contains_key(k) ==> plain(#[trigger] map[k], depth),
    ensures
        compact(members_text(map, keys)),
    decreases depth, 4nat, keys.len(),
{
    if keys.len() == 1 {
        lemma_member_is_compact(map, keys[0], depth);
    } else if keys.len() > 1 {
        let front = keys.drop_last();
        lemma_members_are_compact(map, front, depth);
        lemma_member_is_compact(map, keys.last(), depth);
        lemma_compact_word(seq![',']);
        lemma_compact_parts(members_text(map, front), seq![',']);
        lemma_compact_parts(members_text(map, front) + seq![','], member_text(map, keys.last()));
    }
}

/// The rules of canonical text, for a value with integers for numbers. The text is
/// read as that value, and made canonical again it stays as it is. No white space
/// stands outside strings. Keys stand in strictly ascending order, whatever the
/// depth of their object, each of them once.
pub proof fn canonical_text_keeps_its_rules(t: JsonTree, again: Result<String, String>)
    requires
        plain(t, depth_limit()),
        made_canonical(canonical_text(t), again),
    ensures
        parsed_json(canonical_text(t)) == Some(t),
        again is Ok,
        again->Ok_0@ == canonical_text(t),
        compact(canonical_text(t)),
        forall|map: Map<Seq<char>, JsonTree>|
            map.dom().finite() ==> ascending(#[trigger] key_order(map)) && key_order(map).to_set()
                == map.dom(),
{
    canonical_text_is_compact(t, depth_limit());
    assert forall|map: Map<Seq<char>, JsonTree>| map.dom().finite() implies ascending(
        #[trigger] key_order(map),
    ) && key_order(map).to_set() == map.dom() by {
        keys_are_in_order(map);
    }
}

}
