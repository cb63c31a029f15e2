//! The lexicographic order of strings.

use super::slice::{chars_of, string_views};
use vstd::prelude::*;
use vstd::relations::{sorted_by, total_ordering};
use vstd::seq_lib::lemma_sorted_unique;

verus! {

/// Outcome of comparing two strings.
#[derive(Clone, Copy, PartialEq, Eq, Debug, Structural)]
pub enum Rank {
    Less,
    Equal,
    Greater,
}

/// Whether `a` and `b` first part at position `k`, with `a` the smaller.
pub open spec fn parts_below(a: Seq<char>, b: Seq<char>, k: int) -> bool {
    &&& 0 <= k <= a.len()
    &&& k < b.len()
    &&& a.take(k) == b.take(k)
    &&& k == a.len() || a[k] < b[k]
}

/// Whether `a` precedes `b` lexicographically.
pub open spec fn lex_lt(a: Seq<char>, b: Seq<char>) -> bool {
    exists|k: int| parts_below(a, b, k)
}

/// Whether `a` precedes or equals `b` lexicographically.
pub open spec fn lex_le(a: Seq<char>, b: Seq<char>) -> bool {
    a == b || lex_lt(a, b)
}

/// The comparison of `a` with `b`.
pub open spec fn rank(a: Seq<char>, b: Seq<char>) -> Rank {
    if a == b {
        Rank::Equal
    } else if lex_lt(a, b) {
        Rank::Less
    } else {
        Rank::Greater
    }
}

/// No string precedes itself.
pub proof fn lex_lt_irreflexive(a: Seq<char>)
    ensures
        !lex_lt(a, a),
{
    assert forall|k: int| !parts_below(a, a, k) by {}
}

/// The order is transitive.
pub proof fn lex_lt_transitive(a: Seq<char>, b: Seq<char>, c: Seq<char>)
    requires
        lex_lt(a, b),
        lex_lt(b, c),
    ensures
        lex_lt(a, c),
{
    let i = choose|k: int| parts_below(a, b, k);
    let j = choose|k: int| parts_below(b, c, k);
    let k = if i < j { i } else { j };
    assert(a.take(k) =~= a.take(i).take(k));
    assert(b.take(i).take(k) =~= b.take(k));
    assert(b.take(k) =~= b.take(j).take(k));
    assert(c.take(j).take(k) =~= c.take(k));
    if i < j {
        assert(b.take(j)[i] == c.take(j)[i]);
    } else if j < i {
        assert(a.take(i)[j] == b.take(i)[j]);
    }
    assert(parts_below(a, c, k));
}

/// The order is asymmetric.
pub proof fn lex_lt_asymmetric(a: Seq<char>, b: Seq<char>)
    ensures
        lex_lt(a, b) ==> !lex_lt(b, a) && a != b,
{
    lex_lt_irreflexive(a);
    if lex_lt(a, b) && lex_lt(b, a) {
        lex_lt_transitive(a, b, a);
    }
}

/// The order is total.
pub proof fn lex_lt_total(a: Seq<char>, b: Seq<char>)
    ensures
        lex_lt(a, b) || a == b || lex_lt(b, a),
{
    assert(a.take(0) =~= b.take(0));
    lex_total_from(a, b, 0);
}

proof fn lex_total_from(a: Seq<char>, b: Seq<char>, k: int)
    requires
        0 <= k <= a.len(),
        k <= b.len(),
        a.take(k) == b.take(k),
    ensures
        lex_lt(a, b) || a == b || lex_lt(b, a),
    decreases a.len() - k,
{
    if k == a.len() && k == b.len() {
        assert(a =~= a.take(k));
        assert(b =~= b.take(k));
    } else if k == a.len() {
        assert(parts_below(a, b, k));
    } else if k == b.len() {
        assert(parts_below(b, a, k));
    } else if a[k] == b[k] {
        assert(a.take(k + 1) =~= a.take(k).push(a[k]));
        assert(b.take(k + 1) =~= b.take(k).push(b[k]));
        lex_total_from(a, b, k + 1);
    } else if a[k] < b[k] {
        assert(parts_below(a, b, k));
    } else {
        assert(parts_below(b, a, k));
    }
}

/// Compares two string slices.
pub fn str_rank(a: &str, b: &str) -> (r: Rank)
    ensures
        r == rank(a@, b@),
{
    let x = chars_of(a);
    let y = chars_of(b);
    let mut k: usize = 0;
    while k < x.len() && k < y.len() && x[k] == y[k]
        invariant
            x@ == a@,
            y@ == b@,
            k <= x.len(),
            k <= y.len(),
            a@.take(k as int) == b@.take(k as int),
        decreases x.len() - k,
    {
        assert(a@.take(k + 1) =~= a@.take(k as int).push(a@[k as int]));
        assert(b@.take(k + 1) =~= b@.take(k as int).push(b@[k as int]));
        k += 1;
    }
    if k == x.len() && k == y.len() {
        assert(a@ =~= a@.take(k as int));
        assert(b@ =~= b@.take(k as int));
        return Rank::Equal;
    }
    let below = k < y.len() && (k == x.len() || x[k] < y[k]);
    if below {
        assert(parts_below(a@, b@, k as int));
        proof {
            lex_lt_asymmetric(a@, b@);
        }
        Rank::Less
    } else {
        assert(parts_below(b@, a@, k as int));
        proof {
            lex_lt_asymmetric(b@, a@);
        }
        Rank::Greater
    }
}

/// The lexicographic order as a relation.
pub open spec fn text_order() -> spec_fn(Seq<char>, Seq<char>) -> bool {
    |a: Seq<char>, b: Seq<char>| lex_le(a, b)
}

/// The order goes by the first character that differs: texts that share a start
/// are ordered by the numbers of the characters that follow it, and a text comes
/// before every text that goes on from it.
pub proof fn first_difference_decides(
    start: Seq<char>,
    a: char,
    b: char,
    x: Seq<char>,
    y: Seq<char>,
)
    requires
        a < b,
    ensures
        lex_lt(start + seq![a] + x, start + seq![b] + y),
        !lex_lt(start + seq![b] + y, start + seq![a] + x),
        lex_lt(start, start + seq![a] + x),
        !lex_lt(start + seq![a] + x, start),
{
    let low = start + seq![a] + x;
    let high = start + seq![b] + y;
    let k = start.len() as int;
    assert(low.take(k) =~= start && high.take(k) =~= start && start.take(k) =~= start);
    assert(parts_below(low, high, k));
    assert(parts_below(start, low, k));
    lex_lt_asymmetric(low, high);
    lex_lt_asymmetric(start, low);
}

/// Whether texts stand in lexicographic order.
pub open spec fn sorted_texts(s: Seq<Seq<char>>) -> bool {
    sorted_by(s, text_order())
}

/// The texts in lexicographic order.
pub open spec fn in_order(s: Seq<Seq<char>>) -> Seq<Seq<char>> {
    s.sort_by(text_order())
}

proof fn lemma_text_order()
    ensures
        total_ordering(text_order()),
{
    let leq = text_order();
    assert forall|a: Seq<char>, b: Seq<char>, c: Seq<char>| #[trigger]
        leq(a, b) && #[trigger] leq(b, c) implies leq(a, c) by {
        if a != b && b != c {
            lex_lt_transitive(a, b, c);
        }
    }
    assert forall|a: Seq<char>, b: Seq<char>| #[trigger] leq(a, b) && #[trigger] leq(b, a) implies a
        == b by {
        lex_lt_asymmetric(a, b);
    }
    assert forall|a: Seq<char>, b: Seq<char>| #[trigger] leq(a, b) || #[trigger] leq(b, a) by {
        lex_lt_total(a, b);
    }
}

/// Putting texts in order gives the same texts, each as often, in order.
pub proof fn in_order_is_sorted(s: Seq<Seq<char>>)
    ensures
        sorted_texts(in_order(s)),
        in_order(s).to_multiset() == s.to_multiset(),
{
    lemma_text_order();
    s.lemma_sort_by_ensures(text_order());
}

/// There is one way only to put texts in order.
pub proof fn in_order_is_unique(s: Seq<Seq<char>>, t: Seq<Seq<char>>)
    requires
        sorted_texts(t),
        t.to_multiset() == s.to_multiset(),
    ensures
        t == in_order(s),
{
    lemma_text_order();
    in_order_is_sorted(s);
    lemma_sorted_unique(t, in_order(s), text_order());
}

/// Puts a text in its place in a list that is in order.
fn place_in_order(list: &mut Vec<String>, item: String)
    requires
        sorted_texts(string_views(old(list)@)),
    ensures
        sorted_texts(string_views(final(list)@)),
        string_views(final(list)@).to_multiset() == string_views(old(list)@).to_multiset().insert(
            item@,
        ),
{
    let ghost leq = text_order();
    let ghost was = string_views(list@);
    let ghost key = item@;
    proof {
        lemma_text_order();
    }
    let mut i: usize = 0;
    while i < list.len() && str_rank(list[i].as_str(), item.as_str()) != Rank::Greater
        invariant
            i <= list.len(),
            list@ == old(list)@,
            was == string_views(list@),
            key == item@,
            leq == text_order(),
            forall|k: int| 0 <= k < i ==> lex_le(#[trigger] was[k], key),
        decreases list.len() - i,
    {
        assert(was[i as int] == list@[i as int]@);
        i += 1;
    }
    proof {
        assert forall|k: int| i <= k < was.len() implies lex_le(key, #[trigger] was[k]) by {
            assert(was[i as int] == list@[i as int]@);
            lex_lt_total(was[i as int], key);
            assert(leq(key, was[i as int]));
            if k > i {
                assert(leq(was[i as int], was[k]));
            }
        }
        vstd::seq_lib::to_multiset_insert(was, i as int, key);
    }
    list.insert(i, item);
    proof {
        let now = string_views(list@);
        assert(now =~= was.insert(i as int, key));
        assert forall|a: int, b: int| 0 <= a < b < now.len() implies #[trigger] leq(
            now[a],
            now[b],
        ) by {
            let a0 = if a < i { a } else { a - 1 };
            let b0 = if b < i { b } else { b - 1 };
            if a != i && b != i {
                assert(leq(was[a0], was[b0]));
            } else if a == i {
                assert(lex_le(key, was[b0]));
            } else {
                assert(lex_le(was[a0], key));
            }
        }
    }
}

/// Copies texts in lexicographic order.
pub fn sort_strings(parts: &Vec<String>) -> (r: Vec<String>)
    ensures
        string_views(r@) == in_order(string_views(parts@)),
{
    let ghost all = string_views(parts@);
    let mut r: Vec<String> = Vec::new();
    let mut i: usize = 0;
    assert(string_views(r@) =~= all.take(0));
    while i < parts.len()
        invariant
            i <= parts.len(),
            all == string_views(parts@),
            sorted_texts(string_views(r@)),
            string_views(r@).to_multiset() == all.take(i as int).to_multiset(),
        decreases parts.len() - i,
    {
        proof {
            assert(all.take(i + 1) =~= all.take(i as int).push(all[i as int]));
            vstd::seq_lib::to_multiset_build(all.take(i as int), all[i as int]);
        }
        place_in_order(&mut r, parts[i].clone());
        i += 1;
    }
    proof {
        assert(all.take(i as int) =~= all);
        in_order_is_unique(all, string_views(r@));
    }
    r
}

}
