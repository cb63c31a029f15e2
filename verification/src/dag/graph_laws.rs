//! What the graph promises of parents, ancestors and the causal order.

use crate::dag::graph::{
    causal_order, causal_order_is_causal, children_of, closed_set_holds_reached, down,
    graph_from, is_root, is_tip, leads, leads_further, precedes, ready, up, Graph,
};
use crate::event::Event;
use crate::text::order::lex_lt;
use vstd::prelude::*;

verus! {

/// The ancestors of an event are its parents and their ancestors. A hash that is not
/// in the graph has none.
pub proof fn ancestors_are_parents_and_theirs(g: Graph, x: Seq<char>, y: Seq<char>)
    ensures
        leads(up(g), x, y) <==> g.contains_key(x) && exists|p: Seq<char>| #[trigger]
            g[x].parents.contains(p) && (y == p || leads(up(g), p, y)),
{
    let edge = up(g);
    if leads(edge, x, y) {
        let set = Set::new(
            |z: Seq<char>|
                g.contains_key(x) && exists|p: Seq<char>| #[trigger]
                    g[x].parents.contains(p) && (z == p || leads(edge, p, z)),
        );
        assert forall|z: Seq<char>| #[trigger] edge(x, z) implies set.contains(z) by {
            assert(g[x].parents.contains(z));
        }
        assert forall|z: Seq<char>, w: Seq<char>|
            set.contains(z) && #[trigger] edge(z, w) implies set.contains(w) by {
            let p = choose|p: Seq<char>| #[trigger]
                g[x].parents.contains(p) && (z == p || leads(edge, p, z));
            leads_further(edge, p, z, w);
        }
        closed_set_holds_reached(edge, x, set);
        assert(set.contains(y));
    }
    if g.contains_key(x) {
        assert forall|p: Seq<char>| #[trigger]
            g[x].parents.contains(p) && (y == p || leads(edge, p, y)) implies leads(
            edge,
            x,
            y,
        ) by {
            lemma_leads_from(g, x, p, y);
        }
    }
}

proof fn lemma_leads_from(g: Graph, x: Seq<char>, p: Seq<char>, y: Seq<char>)
    requires
        g.contains_key(x),
        g[x].parents.contains(p),
        y == p || leads(up(g), p, y),
    ensures
        leads(up(g), x, y),
{
    let edge = up(g);
    assert(edge(x, p));
    leads_further(edge, x, x, p);
    if y != p {
        let set = Set::new(|z: Seq<char>| leads(edge, x, z));
        assert forall|z: Seq<char>| #[trigger] edge(p, z) implies set.contains(z) by {
            leads_further(edge, x, p, z);
        }
        assert forall|z: Seq<char>, w: Seq<char>|
            set.contains(z) && #[trigger] edge(z, w) implies set.contains(w) by {
            leads_further(edge, x, z, w);
        }
        closed_set_holds_reached(edge, p, set);
        assert(set.contains(y));
    }
}

/// Of two events of the graph, the one is a descendant of the other if it names it as
/// a parent.
pub proof fn child_is_a_descendant(g: Graph, x: Seq<char>, c: Seq<char>)
    requires
        g.contains_key(x),
        g.contains_key(c),
        g[c].parents.contains(x),
    ensures
        leads(down(g), x, c),
        children_of(g, x).contains(c),
        c != x ==> precedes(g, x, c),
{
    assert(down(g)(x, c));
    leads_further(down(g), x, x, c);
    assert(up(g)(c, x));
    leads_further(up(g), c, c, x);
}

/// What comes before an event comes before all that this comes before, and an event
/// does not come before itself.
pub proof fn precedence_is_transitive(g: Graph, a: Seq<char>, b: Seq<char>, c: Seq<char>)
    requires
        precedes(g, a, b),
        precedes(g, b, c),
        a != c,
    ensures
        precedes(g, a, c),
        !precedes(g, a, a),
{
    let edge = up(g);
    let set = Set::new(|z: Seq<char>| leads(edge, c, z));
    assert forall|z: Seq<char>| #[trigger] edge(b, z) implies set.contains(z) by {
        leads_further(edge, c, b, z);
    }
    assert forall|z: Seq<char>, w: Seq<char>|
        set.contains(z) && #[trigger] edge(z, w) implies set.contains(w) by {
        leads_further(edge, c, z, w);
    }
    closed_set_holds_reached(edge, b, set);
    assert(set.contains(a));
}

/// A root is an event that names no event of the graph as a parent. A tip is an event
/// that no event of the graph names as a parent.
pub proof fn roots_and_tips(g: Graph, h: Seq<char>)
    requires
        g.contains_key(h),
    ensures
        is_root(g, h) <==> forall|p: Seq<char>| #[trigger]
            g.contains_key(p) ==> !g[h].parents.contains(p),
        is_tip(g, h) <==> forall|c: Seq<char>| #[trigger]
            g.contains_key(c) ==> !g[c].parents.contains(h),
        g[h].parents.len() == 0 ==> is_root(g, h),
{
    if is_tip(g, h) {
        assert forall|c: Seq<char>| #[trigger] g.contains_key(c) implies !g[c].parents.contains(
            h,
        ) by {
            assert(!children_of(g, h).contains(c));
        }
    }
    if !is_tip(g, h) {
        let c = choose|c: Seq<char>| #[trigger] children_of(g, h).contains(c);
        assert(g.contains_key(c));
    }
}

/// In causal order, of two events the one with the lesser hash comes first, unless the
/// lesser one has a parent that is still to come.
pub proof fn lesser_hash_comes_first(g: Graph, order: Seq<Seq<char>>, i: int, j: int)
    requires
        causal_order(g, order),
        0 <= i < j < order.len(),
        forall|p: Seq<char>| #[trigger]
            g[order[j]].parents.contains(p) && g.contains_key(p) ==> order.take(i).contains(p),
    ensures
        lex_lt(order[i], order[j]),
{
    causal_order_is_causal(g, order);
    assert(!order.take(i).contains(order[j])) by {
        if order.take(i).contains(order[j]) {
            let k = choose|k: int| 0 <= k < i && order.take(i)[k] == order[j];
            assert(order[k] == order[j]);
        }
    }
    assert(g.contains_key(order[j]));
    assert forall|p: Seq<char>|
        g[order[j]].parents.contains(p) && g.contains_key(
            p,
        ) implies #[trigger] order.take(i).contains(p) by {
        assert(g[order[j]].parents.contains(p));
    }
    assert(ready(g, order.take(i), order[j]));
    assert(order[i] != order[j]);
}

/// In causal order, an event comes after all of its ancestors that are in the graph.
pub proof fn ancestors_come_first(g: Graph, order: Seq<Seq<char>>, i: int, j: int)
    requires
        causal_order(g, order),
        0 <= i < order.len(),
        0 <= j < order.len(),
        leads(up(g), order[j], order[i]),
        forall|c: Seq<char>, p: Seq<char>| #[trigger]
            up(g)(c, p) ==> g.contains_key(p),
    ensures
        i < j,
{
    let edge = up(g);
    causal_order_is_causal(g, order);
    let before = order.take(j);
    let set = Set::new(|z: Seq<char>| before.contains(z));
    assert forall|z: Seq<char>| #[trigger] edge(order[j], z) implies set.contains(z) by {
        assert(g[order[j]].parents.contains(z));
    }
    assert forall|z: Seq<char>, w: Seq<char>|
        set.contains(z) && #[trigger] edge(z, w) implies set.contains(w) by {
        let k = choose|k: int| 0 <= k < j && before[k] == z;
        assert(order[k] == z);
        assert(g[order[k]].parents.contains(w));
        assert(order.take(k).contains(w));
        let m = choose|m: int| 0 <= m < k && order.take(k)[m] == w;
        assert(before[m] == w);
    }
    closed_set_holds_reached(edge, order[j], set);
    assert(set.contains(order[i]));
    let k = choose|k: int| 0 <= k < j && before[k] == order[i];
    assert(order[k] == order[i]);
}

/// A graph holds, under the hash of each event that it is made from, the first event
/// with that hash.
pub proof fn first_event_of_a_hash_is_kept(events: Seq<Event>, i: int)
    requires
        0 <= i < events.len(),
        forall|k: int| 0 <= k < i ==> (#[trigger] events[k])@.event_hash != events[i]@.event_hash,
    ensures
        graph_from(events).contains_key(events[i]@.event_hash),
        graph_from(events)[events[i]@.event_hash] == events[i]@,
    decreases events.len(),
{
    let front = events.drop_last();
    let h = events[i]@.event_hash;
    if i < front.len() {
        assert(front[i] == events[i]);
        first_event_of_a_hash_is_kept(front, i);
    } else {
        assert forall|k: int| 0 <= k < front.len() implies (#[trigger] front[k])@.event_hash
            != h by {
            assert(front[k] == events[k]);
        }
        graph_holds_no_other_hash(front, h);
    }
}

/// A graph holds nothing under a hash that none of its events has.
pub proof fn graph_holds_no_other_hash(events: Seq<Event>, h: Seq<char>)
    requires
        forall|k: int| 0 <= k < events.len() ==> (#[trigger] events[k])@.event_hash != h,
    ensures
        !graph_from(events).contains_key(h),
    decreases events.len(),
{
    if events.len() > 0 {
        let front = events.drop_last();
        assert forall|k: int| 0 <= k < front.len() implies (#[trigger] front[k])@.event_hash
            != h by {
            assert(front[k] == events[k]);
        }
        graph_holds_no_other_hash(front, h);
        assert(events[events.len() - 1] == events.last());
    }
}

}
