//! Events and the links between them.
//!
//! Events can be inserted in any order; a link is made as soon as both of its
//! ends are there. An event that is already there is not inserted again.

use crate::event::{event_views, Event, EventView};
use crate::text::order::{lex_le, lex_lt_asymmetric, lex_lt_total, lex_lt_transitive, str_rank, Rank};
use crate::text::set::{to_set_of_push, StringSet};
use crate::text::slice::{copy_strings, holds, str_eq, string_views, views};
use vstd::hash_map::StringHashMap;
use vstd::prelude::*;

verus! {

/// An event with its links in both directions.
#[derive(Debug)]
pub struct DagNode {
    /// The event.
    pub event: Event,
    /// Hashes of the events that come before it.
    pub parents: Vec<String>,
    /// Hashes of the events that name it as a parent.
    pub children: Vec<String>,
}

impl Clone for DagNode {
    fn clone(&self) -> (r: Self)
        ensures
            r.event@ == self.event@,
            r.parents@ == self.parents@,
            r.children@ == self.children@,
    {
        DagNode {
            event: self.event.clone(),
            parents: copy_strings(&self.parents),
            children: copy_strings(&self.children),
        }
    }
}

/// A graph of events, indexed by hash.
pub struct EventDag {
    nodes: Vec<DagNode>,
    index: StringHashMap<usize>,
}

/// What a graph holds: the events under their hashes.
pub type Graph = Map<Seq<char>, EventView>;

/// A link between hashes.
pub type Edge = spec_fn(Seq<char>, Seq<char>) -> bool;

/// The links from events to their parents.
pub open spec fn up(g: Graph) -> Edge {
    |x: Seq<char>, y: Seq<char>| g.contains_key(x) && g[x].parents.contains(y)
}

/// The links from events to their children.
pub open spec fn down(g: Graph) -> Edge {
    |x: Seq<char>, y: Seq<char>|
        g.contains_key(x) && g.contains_key(y) && g[y].parents.contains(x)
}

/// Whether hashes follow each other along links, at least one.
pub open spec fn chain(edge: Edge, path: Seq<Seq<char>>) -> bool {
    path.len() >= 2 && forall|i: int|
        0 <= i < path.len() - 1 ==> edge(#[trigger] path[i], path[i + 1])
}

/// Whether one hash leads to another along links.
pub open spec fn leads(edge: Edge, x: Seq<char>, y: Seq<char>) -> bool {
    exists|path: Seq<Seq<char>>| #[trigger] chain(edge, path) && path[0] == x && path.last() == y
}

/// Every hash that a hash leads to.
pub open spec fn reached(edge: Edge, x: Seq<char>) -> Set<Seq<char>> {
    Set::new(|y: Seq<char>| leads(edge, x, y))
}

/// The children of an event.
pub open spec fn children_of(g: Graph, h: Seq<char>) -> Set<Seq<char>> {
    Set::new(|c: Seq<char>| g.contains_key(c) && g[c].parents.contains(h))
}

/// Whether an event can come next after those that are done: all of its
/// parents in the graph are done and it is not.
pub open spec fn ready(g: Graph, done: Seq<Seq<char>>, h: Seq<char>) -> bool {
    &&& g.contains_key(h)
    &&& !done.contains(h)
    &&& forall|p: Seq<char>|
        g[h].parents.contains(p) && g.contains_key(p) ==> #[trigger] done.contains(p)
}

/// Whether events follow each other so that each is, of those that can come
/// next, the one with the least hash.
pub open spec fn stepwise(g: Graph, order: Seq<Seq<char>>) -> bool {
    forall|i: int|
        0 <= i < order.len() ==> ready(g, order.take(i), #[trigger] order[i]) && (forall|h: Seq<
            char,
        >|
            #[trigger] ready(g, order.take(i), h) ==> lex_le(order[i], h))
}

/// Whether events are in causal order, with ties broken by hash, and no event
/// is left that could come next.
pub open spec fn causal_order(g: Graph, order: Seq<Seq<char>>) -> bool {
    stepwise(g, order) && forall|h: Seq<char>| !#[trigger] ready(g, order, h)
}

/// The hashes of events.
pub open spec fn hashes_of(events: Seq<&Event>) -> Seq<Seq<char>> {
    events.map_values(|e: &Event| e@.event_hash)
}

/// A link extends what is reached.
pub proof fn leads_further(edge: Edge, x: Seq<char>, y: Seq<char>, z: Seq<char>)
    requires
        x == y || leads(edge, x, y),
        edge(y, z),
    ensures
        leads(edge, x, z),
{
    if x == y && !leads(edge, x, y) {
        let path = seq![x, z];
        assert(chain(edge, path));
        assert(path.last() == z);
    } else {
        let path = choose|path: Seq<Seq<char>>| #[trigger]
            chain(edge, path) && path[0] == x && path.last() == y;
        let longer = path.push(z);
        assert forall|i: int| 0 <= i < longer.len() - 1 implies edge(
            #[trigger] longer[i],
            longer[i + 1],
        ) by {
            if i < path.len() - 1 {
                assert(longer[i] == path[i]);
            }
        }
        assert(chain(edge, longer));
        assert(longer.last() == z);
    }
}

/// A set that holds what follows a hash, and what follows each of its members,
/// holds all that the hash leads to.
pub proof fn closed_set_holds_reached(edge: Edge, x: Seq<char>, set: Set<Seq<char>>)
    requires
        forall|y: Seq<char>| #[trigger] edge(x, y) ==> set.contains(y),
        forall|y: Seq<char>, z: Seq<char>|
            set.contains(y) && #[trigger] edge(y, z) ==> set.contains(z),
    ensures
        forall|y: Seq<char>| leads(edge, x, y) ==> #[trigger] set.contains(y),
{
    assert forall|y: Seq<char>| leads(edge, x, y) implies #[trigger] set.contains(y) by {
        let path = choose|path: Seq<Seq<char>>| #[trigger]
            chain(edge, path) && path[0] == x && path.last() == y;
        lemma_path_in_set(edge, path, set, path.len() - 1);
    }
}

proof fn lemma_path_in_set(edge: Edge, path: Seq<Seq<char>>, set: Set<Seq<char>>, i: int)
    requires
        chain(edge, path),
        forall|y: Seq<char>| #[trigger] edge(path[0], y) ==> set.contains(y),
        forall|y: Seq<char>, z: Seq<char>|
            set.contains(y) && #[trigger] edge(y, z) ==> set.contains(z),
        1 <= i < path.len(),
    ensures
        set.contains(path[i]),
    decreases i,
{
    assert(edge(path[i - 1], path[i - 1 + 1]));
    if i > 1 {
        lemma_path_in_set(edge, path, set, i - 1);
    }
}

/// What leads up and what leads down are the same links read from either end:
/// an event is below another exactly when the other is above it.
pub proof fn down_undoes_up(g: Graph, x: Seq<char>, y: Seq<char>)
    ensures
        leads(down(g), x, y) <==> g.contains_key(x) && leads(up(g), y, x),
{
    if leads(down(g), x, y) {
        let path = choose|path: Seq<Seq<char>>| #[trigger]
            chain(down(g), path) && path[0] == x && path.last() == y;
        let back = path.reverse();
        assert(down(g)(path[0], path[1]));
        assert forall|i: int| 0 <= i < back.len() - 1 implies up(g)(
            #[trigger] back[i],
            back[i + 1],
        ) by {
            let k = path.len() - 2 - i;
            assert(down(g)(path[k], path[k + 1]));
            assert(back[i] == path[k + 1] && back[i + 1] == path[k]);
        }
        assert(chain(up(g), back));
        assert(back[0] == y && back.last() == x);
    }
    if g.contains_key(x) && leads(up(g), y, x) {
        let path = choose|path: Seq<Seq<char>>| #[trigger]
            chain(up(g), path) && path[0] == y && path.last() == x;
        let back = path.reverse();
        assert forall|i: int| 0 <= i < back.len() - 1 implies down(g)(
            #[trigger] back[i],
            back[i + 1],
        ) by {
            let k = path.len() - 2 - i;
            assert(up(g)(path[k], path[k + 1]));
            assert(back[i] == path[k + 1] && back[i + 1] == path[k]);
            if i > 0 {
                assert(up(g)(path[k + 1], path[k + 1 + 1]));
            }
        }
        assert(chain(down(g), back));
        assert(back[0] == x && back.last() == y);
    }
}

/// The hashes that the nodes link to.
spec fn linked(nodes: Seq<DagNode>) -> Set<Seq<char>>
    decreases nodes.len(),
{
    if nodes.len() == 0 {
        Set::empty()
    } else {
        linked(nodes.drop_last()).union(string_views(nodes.last().parents@).to_set()).union(
            string_views(nodes.last().children@).to_set(),
        )
    }
}

proof fn lemma_linked(nodes: Seq<DagNode>)
    ensures
        linked(nodes).finite(),
        forall|i: int, h: Seq<char>|
            #![trigger string_views(nodes[i].parents@).contains(h)]
            0 <= i < nodes.len() && string_views(nodes[i].parents@).contains(h) ==> linked(
                nodes,
            ).contains(h),
        forall|i: int, h: Seq<char>|
            #![trigger string_views(nodes[i].children@).contains(h)]
            0 <= i < nodes.len() && string_views(nodes[i].children@).contains(h) ==> linked(
                nodes,
            ).contains(h),
    decreases nodes.len(),
{
    if nodes.len() > 0 {
        let rest = nodes.drop_last();
        lemma_linked(rest);
        vstd::seq_lib::seq_to_set_is_finite(string_views(nodes.last().parents@));
        vstd::seq_lib::seq_to_set_is_finite(string_views(nodes.last().children@));
        assert forall|i: int, h: Seq<char>|
            #![trigger string_views(nodes[i].parents@).contains(h)]
            0 <= i < nodes.len() && string_views(nodes[i].parents@).contains(h) implies linked(
            nodes,
        ).contains(h) by {
            if i < nodes.len() - 1 {
                assert(rest[i] == nodes[i]);
                assert(string_views(rest[i].parents@).contains(h));
            } else {
                assert(string_views(nodes.last().parents@).to_set().contains(h));
            }
        }
        assert forall|i: int, h: Seq<char>|
            #![trigger string_views(nodes[i].children@).contains(h)]
            0 <= i < nodes.len() && string_views(nodes[i].children@).contains(h) implies linked(
            nodes,
        ).contains(h) by {
            if i < nodes.len() - 1 {
                assert(rest[i] == nodes[i]);
                assert(string_views(rest[i].children@).contains(h));
            } else {
                assert(string_views(nodes.last().children@).to_set().contains(h));
            }
        }
    }
}

/// Whether a walk has seen only what it should, and has followed the links of its
/// start and of the first `next` hashes that it came to.
spec fn walk_so_far(
    edge: Edge,
    start: Seq<char>,
    world: Set<Seq<char>>,
    order: Seq<Seq<char>>,
    next: int,
) -> bool {
    &&& order.no_duplicates()
    &&& 0 <= next <= order.len()
    &&& forall|y: Seq<char>| #[trigger]
        order.to_set().contains(y) ==> world.contains(y) && leads(edge, start, y)
    &&& forall|y: Seq<char>| #[trigger] edge(start, y) ==> order.to_set().contains(y)
    &&& forall|k: int, y: Seq<char>|
        0 <= k < next && #[trigger] edge(order[k], y) ==> order.to_set().contains(y)
}

proof fn lemma_walk_goes_on(
    edge: Edge,
    start: Seq<char>,
    world: Set<Seq<char>>,
    order: Seq<Seq<char>>,
    next: int,
    links: Set<Seq<char>>,
    longer: Seq<Seq<char>>,
)
    requires
        walk_so_far(edge, start, world, order, next),
        next < order.len(),
        forall|y: Seq<char>| #[trigger] links.contains(y) <==> edge(order[next], y),
        links.subset_of(world),
        longer.no_duplicates(),
        longer.len() >= order.len(),
        longer.take(order.len() as int) == order,
        longer.to_set() == order.to_set().union(links),
    ensures
        walk_so_far(edge, start, world, longer, next + 1),
{
    let current = order[next];
    assert(order.to_set().contains(current));
    assert forall|y: Seq<char>| #[trigger] longer.to_set().contains(y) implies world.contains(y)
        && leads(edge, start, y) by {
        if !order.to_set().contains(y) {
            assert(links.contains(y));
            leads_further(edge, start, current, y);
        }
    }
    assert forall|y: Seq<char>| #[trigger] edge(start, y) implies longer.to_set().contains(y) by {
        assert(order.to_set().contains(y));
    }
    assert forall|k: int, y: Seq<char>|
        0 <= k < next + 1 && #[trigger] edge(longer[k], y) implies longer.to_set().contains(y) by {
        assert(longer.take(order.len() as int)[k] == order[k]);
        if k == next {
            assert(links.contains(y));
        } else {
            assert(edge(order[k], y));
            assert(order.to_set().contains(y));
        }
    }
}

/// Adds hashes to those that were visited.
fn visit_all(visited: &mut StringSet, hashes: &Vec<String>)
    ensures
        final(visited)@ == old(visited)@.union(string_views(hashes@).to_set()),
        final(visited).order().len() >= old(visited).order().len(),
        final(visited).order().take(old(visited).order().len() as int) == old(visited).order(),
{
    let ghost all = string_views(hashes@);
    let ghost first = visited@;
    let ghost prefix = visited.order();
    let mut i: usize = 0;
    proof {
        assert(all.take(0).to_set() =~= Set::empty());
        assert(visited@ =~= first.union(all.take(0).to_set()));
        assert(prefix.take(prefix.len() as int) =~= prefix);
    }
    while i < hashes.len()
        invariant
            i <= hashes.len(),
            all == string_views(hashes@),
            visited@ == first.union(all.take(i as int).to_set()),
            visited.order().len() >= prefix.len(),
            visited.order().take(prefix.len() as int) == prefix,
        decreases hashes.len() - i,
    {
        let ghost order = visited.order();
        visited.insert(hashes[i].clone());
        proof {
            assert(all.take(i + 1) =~= all.take(i as int).push(all[i as int]));
            to_set_of_push(all.take(i as int), all[i as int]);
            assert(visited@ =~= first.union(all.take(i + 1).to_set()));
            assert(visited.order().take(prefix.len() as int) =~= order.take(prefix.len() as int));
        }
        i += 1;
    }
    assert(all.take(i as int) =~= all);
}

spec fn node_hash(nodes: Seq<DagNode>, i: int) -> Seq<char> {
    nodes[i].event@.event_hash
}

/// The events of some nodes, under their hashes.
spec fn graph_of(nodes: Seq<DagNode>, index: Map<Seq<char>, usize>) -> Graph {
    Map::new(
        |h: Seq<char>| index.contains_key(h),
        |h: Seq<char>| nodes[index[h] as int].event@,
    )
}

/// Whether nodes and index fit together and every link is there in both
/// directions.
spec fn well_linked(nodes: Seq<DagNode>, index: Map<Seq<char>, usize>) -> bool {
    &&& forall|h: Seq<char>| #[trigger]
        index.contains_key(h) ==> index[h] < nodes.len() && node_hash(nodes, index[h] as int) == h
    &&& forall|i: int|
        0 <= i < nodes.len() ==> index.contains_key(#[trigger] node_hash(nodes, i))
            && index[node_hash(nodes, i)] == i
    &&& forall|i: int|
        0 <= i < nodes.len() ==> string_views((#[trigger] nodes[i]).parents@)
            == nodes[i].event@.parents
    &&& forall|i: int|
        0 <= i < nodes.len() ==> string_views((#[trigger] nodes[i]).children@).to_set()
            == children_of(graph_of(nodes, index), node_hash(nodes, i))
}

/// Whether the children of a new node are those that name it as a parent.
spec fn names_as_parent(base: Seq<DagNode>, e: EventView, c: Seq<char>) -> bool {
    (c == e.event_hash && e.parents.contains(e.event_hash)) || exists|k: int|
        0 <= k < base.len() && node_hash(base, k) == c && (
        #[trigger] base[k]).event@.parents.contains(e.event_hash)
}

proof fn lemma_inserted(
    base: Seq<DagNode>,
    index: Map<Seq<char>, usize>,
    mid: Seq<DagNode>,
    node: DagNode,
    n: usize,
)
    requires
        well_linked(base, index),
        n == base.len(),
        !index.contains_key(node.event@.event_hash),
        string_views(node.parents@) == node.event@.parents,
        mid.len() == base.len(),
        forall|k: int|
            0 <= k < base.len() ==> (#[trigger] mid[k]).event == base[k].event && mid[k].parents
                == base[k].parents,
        forall|k: int|
            0 <= k < base.len() ==> string_views((#[trigger] mid[k]).children@).to_set()
                == if node.event@.parents.contains(node_hash(base, k)) {
                string_views(base[k].children@).to_set().insert(node.event@.event_hash)
            } else {
                string_views(base[k].children@).to_set()
            },
        forall|c: Seq<char>| #[trigger]
            string_views(node.children@).contains(c) <==> names_as_parent(base, node.event@, c),
    ensures
        well_linked(mid.push(node), index.insert(node.event@.event_hash, n)),
        graph_of(mid.push(node), index.insert(node.event@.event_hash, n)) == graph_of(
            base,
            index,
        ).insert(node.event@.event_hash, node.event@),
{
    let e = node.event@;
    let h = e.event_hash;
    let nodes = mid.push(node);
    let index2 = index.insert(h, n);
    let g = graph_of(base, index);
    let g2 = graph_of(nodes, index2);
    assert forall|k: int| 0 <= k < base.len() implies #[trigger] node_hash(nodes, k) == node_hash(
        base,
        k,
    ) && node_hash(nodes, k) != h by {
        assert(nodes[k] == mid[k]);
        assert(index.contains_key(node_hash(base, k)));
    }
    assert(node_hash(nodes, n as int) == h);
    assert forall|x: Seq<char>| #[trigger] index2.contains_key(x) implies index2[x] < nodes.len()
        && node_hash(nodes, index2[x] as int) == x by {
        if x != h {
            assert(index.contains_key(x));
        }
    }
    assert forall|x: Seq<char>| #[trigger] g2.contains_key(x) implies g2[x] == g.insert(h, e)[x] by {
        if x != h {
            assert(index.contains_key(x));
            let k = index[x] as int;
            assert(nodes[k] == mid[k]);
        }
    }
    assert(g2 =~= g.insert(h, e));
    assert forall|i: int| 0 <= i < nodes.len() implies string_views(
        (#[trigger] nodes[i]).parents@,
    ) == nodes[i].event@.parents by {
        if i < n {
            assert(nodes[i] == mid[i]);
        }
    }
    assert forall|i: int| 0 <= i < nodes.len() implies string_views(
        (#[trigger] nodes[i]).children@,
    ).to_set() == children_of(g2, node_hash(nodes, i)) by {
        if i < n {
            let x = node_hash(base, i);
            assert(nodes[i] == mid[i]);
            assert(string_views(base[i].children@).to_set() == children_of(g, x));
            assert(string_views(mid[i].children@).to_set() =~= children_of(g2, x));
        } else {
            assert forall|c: Seq<char>| #[trigger]
                string_views(node.children@).to_set().contains(c) == children_of(g2, h).contains(
                    c,
                ) by {
                assert(string_views(node.children@).to_set().contains(c) == string_views(
                    node.children@,
                ).contains(c));
                if children_of(g2, h).contains(c) && c != h {
                    assert(index.contains_key(c));
                    let k = index[c] as int;
                    assert(node_hash(base, k) == c);
                    assert(base[k].event@.parents.contains(h));
                }
                if names_as_parent(base, e, c) && c != h {
                    let k = choose|k: int|
                        0 <= k < base.len() && node_hash(base, k) == c && (
                        #[trigger] base[k]).event@.parents.contains(h);
                    assert(index.contains_key(node_hash(base, k)));
                    assert(g[c] == base[k].event@);
                }
                if names_as_parent(base, e, h) && c == h && !e.parents.contains(h) {
                    let k = choose|k: int|
                        0 <= k < base.len() && node_hash(base, k) == h && (
                        #[trigger] base[k]).event@.parents.contains(h);
                    assert(index.contains_key(node_hash(base, k)));
                }
            }
            assert(string_views(node.children@).to_set() =~= children_of(g2, h));
        }
    }
}

impl View for EventDag {
    type V = Graph;

    closed spec fn view(&self) -> Graph {
        graph_of(self.nodes@, self.index@)
    }
}

impl Clone for EventDag {
    fn clone(&self) -> (r: Self)
        ensures
            r@ == self@,
    {
        proof {
            use_type_invariant(self);
        }
        let ghost all = self.nodes@;
        let mut nodes: Vec<DagNode> = Vec::new();
        let mut index: StringHashMap<usize> = StringHashMap::new();
        let mut i: usize = 0;
        while i < self.nodes.len()
            invariant
                i <= self.nodes.len(),
                all == self.nodes@,
                well_linked(all, self.index@),
                nodes.len() == i,
                forall|k: int|
                    0 <= k < i ==> (#[trigger] nodes@[k]).event@ == all[k].event@
                        && nodes@[k].parents@ == all[k].parents@ && nodes@[k].children@
                        == all[k].children@,
                forall|h: Seq<char>| #[trigger]
                    index@.contains_key(h) <==> self.index@.contains_key(h) && self.index@[h] < i,
                forall|h: Seq<char>| #[trigger]
                    index@.contains_key(h) ==> index@[h] == self.index@[h],
            decreases self.nodes.len() - i,
        {
            let ghost before = index@;
            let node = self.nodes[i].clone();
            let hash = node.event.event_hash.clone();
            index.insert(hash, i);
            nodes.push(node);
            proof {
                assert(node_hash(all, i as int) == hash@);
                assert forall|h: Seq<char>| #[trigger] index@.contains_key(h) <==> (
                self.index@.contains_key(h) && self.index@[h] < i + 1) by {
                    assert(before.contains_key(h) <==> self.index@.contains_key(h)
                        && self.index@[h] < i);
                    if self.index@.contains_key(h) && self.index@[h] == i {
                        assert(node_hash(all, self.index@[h] as int) == h);
                    }
                }
                assert forall|h: Seq<char>| #[trigger] index@.contains_key(h) implies index@[h]
                    == self.index@[h] by {
                    if h != hash@ {
                        assert(before.contains_key(h));
                    }
                }
            }
            i += 1;
        }
        proof {
            assert(index@ =~= self.index@);
            assert(graph_of(nodes@, index@) =~= graph_of(all, self.index@));
            assert forall|k: int| 0 <= k < nodes@.len() implies #[trigger] node_hash(nodes@, k)
                == node_hash(all, k) by {
                assert(nodes@[k].event@ == all[k].event@);
            }
            assert forall|k: int| 0 <= k < nodes@.len() implies string_views(
                (#[trigger] nodes@[k]).children@,
            ).to_set() == children_of(graph_of(nodes@, index@), node_hash(nodes@, k)) by {
                assert(string_views(all[k].children@).to_set() == children_of(
                    graph_of(all, self.index@),
                    node_hash(all, k),
                ));
            }
        }
        EventDag { nodes, index }
    }
}

impl EventDag {
    #[verifier::type_invariant]
    spec fn linked_up(self) -> bool {
        well_linked(self.nodes@, self.index@)
    }

    /// Hashes among which those of all parents are.
    pub closed spec fn targets(&self) -> Set<Seq<char>> {
        linked(self.nodes@)
    }

    /// Creates an empty graph.
    #[must_use]
    pub fn new() -> (r: Self)
        ensures
            r@ == Map::<Seq<char>, EventView>::empty(),
    {
        let r = EventDag { nodes: Vec::new(), index: StringHashMap::new() };
        assert(r@ =~= Map::<Seq<char>, EventView>::empty());
        r
    }

    /// Creates an empty graph with room for a number of events.
    #[must_use]
    pub fn with_capacity(capacity: usize) -> (r: Self)
        ensures
            r@ == Map::<Seq<char>, EventView>::empty(),
    {
        let r = EventDag {
            nodes: Vec::with_capacity(capacity),
            index: StringHashMap::with_capacity(capacity),
        };
        assert(r@ =~= Map::<Seq<char>, EventView>::empty());
        r
    }

    /// Inserts an event and links it to its parents and children, as far as
    /// they are there. An event whose hash is already there is skipped.
    pub fn insert(&mut self, event: Event)
        ensures
            final(self)@ == if old(self)@.contains_key(event@.event_hash) {
                old(self)@
            } else {
                old(self)@.insert(event@.event_hash, event@)
            },
    {
        proof {
            use_type_invariant(&*self);
        }
        if self.index.contains_key(event.event_hash.as_str()) {
            return ;
        }
        let mut before = EventDag::new();
        std::mem::swap(self, &mut before);
        proof {
            use_type_invariant(&before);
        }
        let EventDag { nodes, index } = before;
        let mut nodes = nodes;
        let mut index = index;
        let ghost base = nodes@;
        let ghost e = event@;
        let ghost h = e.event_hash;
        let hash = event.event_hash.clone();
        let parents = copy_strings(&event.parents);
        let children = Self::naming(&nodes, &event);
        let mut p: usize = 0;
        while p < parents.len()
            invariant
                p <= parents.len(),
                nodes@.len() == base.len(),
                string_views(parents@) == e.parents,
                hash@ == h,
                well_linked(base, index@),
                forall|k: int|
                    0 <= k < base.len() ==> (#[trigger] nodes@[k]).event == base[k].event
                        && nodes@[k].parents == base[k].parents,
                forall|k: int|
                    0 <= k < base.len() ==> string_views((#[trigger] nodes@[k]).children@).to_set()
                        == if e.parents.take(p as int).contains(node_hash(base, k)) {
                        string_views(base[k].children@).to_set().insert(h)
                    } else {
                        string_views(base[k].children@).to_set()
                    },
            decreases parents.len() - p,
        {
            let parent = parents[p].as_str();
            let ghost now = nodes@;
            assert(parent@ == e.parents[p as int]);
            if let Some(j) = index.get(parent) {
                let j = *j;
                nodes[j].children.push(hash.clone());
                proof {
                    assert(string_views(nodes@[j as int].children@) =~= string_views(
                        now[j as int].children@,
                    ).push(h));
                    to_set_of_push(string_views(now[j as int].children@), h);
                }
            }
            proof {
                let part = e.parents.take(p as int);
                let next = e.parents.take(p + 1);
                assert(next =~= part.push(e.parents[p as int]));
                to_set_of_push(part, e.parents[p as int]);
                assert forall|k: int| 0 <= k < base.len() implies string_views(
                    (#[trigger] nodes@[k]).children@,
                ).to_set() == if next.contains(node_hash(base, k)) {
                    string_views(base[k].children@).to_set().insert(h)
                } else {
                    string_views(base[k].children@).to_set()
                } by {
                    let x = node_hash(base, k);
                    assert(next.to_set().contains(x) == next.contains(x));
                    assert(part.to_set().contains(x) == part.contains(x));
                    assert(now[k].event == base[k].event);
                    if x == parent@ {
                        assert(index@.contains_key(x) && index@[x] == k);
                        assert(string_views(base[k].children@).to_set().insert(h).insert(h)
                            =~= string_views(base[k].children@).to_set().insert(h));
                    } else if index@.contains_key(parent@) {
                        assert(index@[parent@] != k);
                        assert(nodes@[k] == now[k]);
                    }
                }
            }
            p += 1;
        }
        let n = nodes.len();
        let ghost mid = nodes@;
        let node = DagNode { event, parents, children };
        proof {
            assert(e.parents.take(p as int) =~= e.parents);
            lemma_inserted(base, index@, mid, node, n);
        }
        nodes.push(node);
        index.insert(hash, n);
        *self = EventDag { nodes, index };
    }

    /// The hashes of the nodes that name an event as a parent, and its own if
    /// it names itself.
    fn naming(nodes: &Vec<DagNode>, event: &Event) -> (r: Vec<String>)
        requires
            forall|k: int|
                0 <= k < nodes@.len() ==> string_views((#[trigger] nodes@[k]).parents@)
                    == nodes@[k].event@.parents,
        ensures
            forall|c: Seq<char>| #[trigger]
                string_views(r@).contains(c) <==> names_as_parent(nodes@, event@, c),
    {
        let hash = event.event_hash.as_str();
        let ghost h = event@.event_hash;
        let mut r: Vec<String> = Vec::new();
        if holds(&event.parents, hash) {
            r.push(event.event_hash.clone());
        }
        let mut i: usize = 0;
        proof {
            if event@.parents.contains(h) {
                assert(string_views(r@)[0] == h);
            }
            assert forall|c: Seq<char>| #[trigger] string_views(r@).contains(c) <==> names_as_parent(
                nodes@.take(0),
                event@,
                c,
            ) by {}
        }
        while i < nodes.len()
            invariant
                i <= nodes.len(),
                hash@ == h,
                h == event@.event_hash,
                forall|k: int|
                    0 <= k < nodes@.len() ==> string_views((#[trigger] nodes@[k]).parents@)
                        == nodes@[k].event@.parents,
                forall|c: Seq<char>| #[trigger]
                    string_views(r@).contains(c) <==> names_as_parent(
                        nodes@.take(i as int),
                        event@,
                        c,
                    ),
            decreases nodes.len() - i,
        {
            let ghost was = string_views(r@);
            let ghost x = node_hash(nodes@, i as int);
            if holds(&nodes[i].parents, hash) {
                r.push(nodes[i].event.event_hash.clone());
                assert(string_views(r@) =~= was.push(x));
                proof {
                    to_set_of_push(was, x);
                }
            }
            proof {
                let part = nodes@.take(i as int);
                let next = nodes@.take(i + 1);
                assert forall|c: Seq<char>| #[trigger]
                    string_views(r@).contains(c) <==> names_as_parent(next, event@, c) by {
                    assert(string_views(r@).to_set().contains(c) == string_views(r@).contains(c));
                    assert(was.to_set().contains(c) == was.contains(c));
                    assert(was.contains(c) <==> names_as_parent(part, event@, c));
                    if exists|k: int|
                        0 <= k < part.len() && node_hash(part, k) == c && (
                        #[trigger] part[k]).event@.parents.contains(h) {
                        let k = choose|k: int|
                            0 <= k < part.len() && node_hash(part, k) == c && (
                            #[trigger] part[k]).event@.parents.contains(h);
                        assert(next[k] == part[k]);
                    }
                    if exists|k: int|
                        0 <= k < next.len() && node_hash(next, k) == c && (
                        #[trigger] next[k]).event@.parents.contains(h) {
                        let k = choose|k: int|
                            0 <= k < next.len() && node_hash(next, k) == c && (
                            #[trigger] next[k]).event@.parents.contains(h);
                        if k < i {
                            assert(next[k] == part[k]);
                        }
                    }
                    assert(next[i as int] == nodes@[i as int]);
                }
            }
            i += 1;
        }
        assert(nodes@.take(i as int) =~= nodes@);
        r
    }

    /// Builds a graph by inserting events in the order given.
    #[must_use]
    pub fn from_events(events: &[Event]) -> (r: Self)
        ensures
            r@ == graph_from(events@),
    {
        let mut dag = EventDag::with_capacity(events.len());
        let mut i: usize = 0;
        assert(events@.take(0) =~= Seq::empty());
        while i < events.len()
            invariant
                i <= events.len(),
                dag@ == graph_from(events@.take(i as int)),
            decreases events.len() - i,
        {
            assert(events@.take(i + 1).drop_last() =~= events@.take(i as int));
            assert(events@.take(i + 1).last() == events@[i as int]);
            dag.insert(events[i].clone());
            i += 1;
        }
        assert(events@.take(i as int) =~= events@);
        dag
    }

    proof fn lemma_dom(&self)
        requires
            well_linked(self.nodes@, self.index@),
        ensures
            self@.dom() == Seq::new(
                self.nodes@.len(),
                |i: int| node_hash(self.nodes@, i),
            ).to_set(),
            self@.dom().finite(),
            self@.dom().len() == self.nodes@.len(),
    {
        let all = Seq::new(self.nodes@.len(), |i: int| node_hash(self.nodes@, i));
        assert forall|h: Seq<char>| #[trigger] self@.dom().contains(h) == all.to_set().contains(
            h,
        ) by {
            if self.index@.contains_key(h) {
                let i = self.index@[h] as int;
                assert(all[i] == h);
                assert(all.contains(h));
            }
            if all.contains(h) {
                let i = choose|i: int| 0 <= i < all.len() && all[i] == h;
                assert(self.index@.contains_key(node_hash(self.nodes@, i)));
            }
        }
        assert(self@.dom() =~= all.to_set());
        assert(all.no_duplicates()) by {
            assert forall|i: int, j: int|
                0 <= i < all.len() && 0 <= j < all.len() && i != j implies all[i] != all[j] by {
                assert(self.index@[node_hash(self.nodes@, i)] == i);
                assert(self.index@[node_hash(self.nodes@, j)] == j);
            }
        }
        all.unique_seq_to_set();
    }

    /// Number of events in the graph.
    #[must_use]
    pub fn len(&self) -> (r: usize)
        ensures
            r == self@.dom().len(),
            self@.dom().finite(),
    {
        proof {
            use_type_invariant(&*self);
            self.lemma_dom();
        }
        self.nodes.len()
    }

    /// Whether the graph has no events.
    #[must_use]
    pub fn is_empty(&self) -> (r: bool)
        ensures
            r == (self@ == Map::<Seq<char>, EventView>::empty()),
    {
        let n = self.len();
        proof {
            if n == 0 {
                assert(self@ =~= Map::empty());
            }
        }
        n == 0
    }

    /// Looks up a node by the hash of its event.
    #[must_use]
    pub fn get(&self, hash: &str) -> (r: Option<&DagNode>)
        ensures
            match r {
                Some(node) => {
                    &&& self@.contains_key(hash@)
                    &&& node.event@ == self@[hash@]
                    &&& node.event@.event_hash == hash@
                    &&& string_views(node.parents@) == self@[hash@].parents
                    &&& string_views(node.children@).to_set() == children_of(self@, hash@)
                },
                None => !self@.contains_key(hash@),
            },
            self.targets().finite(),
            forall|x: Seq<char>, y: Seq<char>| #[trigger]
                up(self@)(x, y) ==> self.targets().contains(y),
    {
        proof {
            use_type_invariant(&*self);
            lemma_linked(self.nodes@);
            assert forall|x: Seq<char>, y: Seq<char>| #[trigger] up(self@)(x, y) implies linked(
                self.nodes@,
            ).contains(y) by {
                let i = self.index@[x] as int;
                assert(self.index@.contains_key(x));
                assert(string_views(self.nodes@[i].parents@).contains(y));
            }
        }
        match self.index.get(hash) {
            Some(i) => Some(&self.nodes[*i]),
            None => None,
        }
    }

    /// The event with a given hash.
    #[must_use]
    pub fn get_event(&self, hash: &str) -> (r: Option<&Event>)
        ensures
            match r {
                Some(event) => self@.contains_key(hash@) && event@ == self@[hash@],
                None => !self@.contains_key(hash@),
            },
    {
        match self.get(hash) {
            Some(node) => Some(&node.event),
            None => None,
        }
    }

    /// Whether the graph holds an event with the given hash.
    #[must_use]
    pub fn contains(&self, hash: &str) -> (r: bool)
        ensures
            r == self@.contains_key(hash@),
    {
        self.index.contains_key(hash)
    }

    /// The hashes of the events that have no parent in the graph.
    ///
    /// There are several where agents started without seeing each other's
    /// first events.
    #[must_use]
    pub fn roots(&self) -> (r: Vec<&str>)
        ensures
            views(r@).no_duplicates(),
            forall|h: Seq<char>| #[trigger] views(r@).contains(h) <==> is_root(self@, h),
    {
        proof {
            use_type_invariant(&*self);
        }
        let mut r: Vec<&str> = Vec::new();
        let mut i: usize = 0;
        while i < self.nodes.len()
            invariant
                well_linked(self.nodes@, self.index@),
                i <= self.nodes.len(),
                views(r@).no_duplicates(),
                forall|h: Seq<char>| #[trigger]
                    views(r@).contains(h) <==> is_root(self@, h) && self.index@[h] < i,
            decreases self.nodes.len() - i,
        {
            let node = &self.nodes[i];
            let ghost was = views(r@);
            let ghost x = node_hash(self.nodes@, i as int);
            assert(self.index@.contains_key(x) && self.index@[x] == i);
            if !self.any_known(&node.parents) {
                assert(is_root(self@, x));
                r.push(node.event.event_hash.as_str());
                assert(views(r@) =~= was.push(x));
                proof {
                    assert(!was.contains(x));
                    assert(was.push(x).no_duplicates());
                    to_set_of_push(was, x);
                }
            }
            proof {
                assert forall|h: Seq<char>| #[trigger]
                    views(r@).contains(h) <==> is_root(self@, h) && self.index@[h] < i + 1 by {
                    assert(views(r@).to_set().contains(h) == views(r@).contains(h));
                    assert(was.to_set().contains(h) == was.contains(h));
                    assert(was.contains(h) <==> is_root(self@, h) && self.index@[h] < i);
                    if is_root(self@, h) && self.index@[h] == i {
                        assert(self.index@.contains_key(h));
                        assert(h == x);
                    }
                }
            }
            i += 1;
        }
        proof {
            assert forall|h: Seq<char>| #[trigger] views(r@).contains(h) <==> is_root(self@, h) by {
                if is_root(self@, h) {
                    assert(self.index@.contains_key(h));
                }
            }
        }
        r
    }

    /// Whether one of some hashes is in the graph.
    fn any_known(&self, hashes: &Vec<String>) -> (r: bool)
        ensures
            r == exists|h: Seq<char>|
                string_views(hashes@).contains(h) && #[trigger] self@.contains_key(h),
    {
        let mut i: usize = 0;
        while i < hashes.len()
            invariant
                i <= hashes.len(),
                forall|k: int| 0 <= k < i ==> !self@.contains_key(#[trigger] string_views(hashes@)[k]),
            decreases hashes.len() - i,
        {
            if self.contains(hashes[i].as_str()) {
                assert(string_views(hashes@)[i as int] == hashes@[i as int]@);
                assert(string_views(hashes@).contains(hashes@[i as int]@));
                return true;
            }
            i += 1;
        }
        false
    }

    /// The hashes of the events that have no children: the current heads.
    #[must_use]
    pub fn tips(&self) -> (r: Vec<&str>)
        ensures
            views(r@).no_duplicates(),
            forall|h: Seq<char>| #[trigger] views(r@).contains(h) <==> is_tip(self@, h),
    {
        proof {
            use_type_invariant(&*self);
        }
        let mut r: Vec<&str> = Vec::new();
        let mut i: usize = 0;
        while i < self.nodes.len()
            invariant
                well_linked(self.nodes@, self.index@),
                i <= self.nodes.len(),
                views(r@).no_duplicates(),
                forall|h: Seq<char>| #[trigger]
                    views(r@).contains(h) <==> is_tip(self@, h) && self.index@[h] < i,
            decreases self.nodes.len() - i,
        {
            let node = &self.nodes[i];
            let ghost was = views(r@);
            let ghost x = node_hash(self.nodes@, i as int);
            let ghost kids = string_views(node.children@);
            assert(self.index@.contains_key(x) && self.index@[x] == i);
            assert(kids.to_set() == children_of(self@, x));
            if node.children.len() == 0 {
                assert(children_of(self@, x) =~= Set::empty());
                assert(is_tip(self@, x));
                r.push(node.event.event_hash.as_str());
                assert(views(r@) =~= was.push(x));
                proof {
                    assert(!was.contains(x));
                    assert(was.push(x).no_duplicates());
                    to_set_of_push(was, x);
                }
            } else {
                assert(kids.to_set().contains(kids[0]));
                assert(!is_tip(self@, x));
            }
            proof {
                assert forall|h: Seq<char>| #[trigger]
                    views(r@).contains(h) <==> is_tip(self@, h) && self.index@[h] < i + 1 by {
                    assert(views(r@).to_set().contains(h) == views(r@).contains(h));
                    assert(was.to_set().contains(h) == was.contains(h));
                    assert(was.contains(h) <==> is_tip(self@, h) && self.index@[h] < i);
                    if is_tip(self@, h) && self.index@[h] == i {
                        assert(self.index@.contains_key(h));
                        assert(h == x);
                    }
                }
            }
            i += 1;
        }
        proof {
            assert forall|h: Seq<char>| #[trigger] views(r@).contains(h) <==> is_tip(self@, h) by {
                if is_tip(self@, h) {
                    assert(self.index@.contains_key(h));
                }
            }
        }
        r
    }

    /// The hashes that a hash is linked to, up or down.
    fn links<'a>(&'a self, hash: &str, upward: bool) -> (r: Option<&'a Vec<String>>)
        ensures
            match r {
                Some(list) => forall|y: Seq<char>|
                    string_views(list@).contains(y) <==> #[trigger] toward(self@, upward)(hash@, y),
                None => forall|y: Seq<char>| !#[trigger] toward(self@, upward)(hash@, y),
            },
            r is Some ==> forall|y: Seq<char>|
                string_views(r->0@).contains(y) ==> #[trigger] linked(self.nodes@).contains(y),
    {
        proof {
            use_type_invariant(&*self);
            lemma_linked(self.nodes@);
        }
        match self.index.get(hash) {
            Some(i) => {
                let node = &self.nodes[*i];
                let ghost k = *i as int;
                assert(self.nodes@[k] == *node);
                if upward {
                    Some(&node.parents)
                } else {
                    proof {
                        let kids = string_views(node.children@);
                        assert(kids.to_set() == children_of(self@, hash@));
                        assert forall|y: Seq<char>| kids.contains(y) <==> #[trigger] toward(
                            self@,
                            upward,
                        )(hash@, y) by {
                            assert(kids.to_set().contains(y) == kids.contains(y));
                        }
                    }
                    Some(&node.children)
                }
            },
            None => None,
        }
    }

    /// Every hash that a hash leads to, up or down.
    fn walk(&self, start: &str, upward: bool) -> (r: StringSet)
        ensures
            r@ == reached(toward(self@, upward), start@),
    {
        let ghost edge = toward(self@, upward);
        let ghost world = linked(self.nodes@);
        proof {
            lemma_linked(self.nodes@);
        }
        let mut visited = StringSet::new();
        assert(visited@ == visited.order().to_set());
        if let Some(list) = self.links(start, upward) {
            visit_all(&mut visited, list);
            proof {
                let links = string_views(list@).to_set();
                assert forall|y: Seq<char>| #[trigger] visited@.contains(y) implies world.contains(y)
                    && leads(edge, start@, y) by {
                    assert(links.contains(y));
                    assert(edge(start@, y));
                    leads_further(edge, start@, start@, y);
                }
                assert forall|y: Seq<char>| #[trigger] edge(start@, y) implies visited@.contains(
                    y,
                ) by {
                    assert(links.contains(y));
                }
            }
        }
        let mut next: usize = 0;
        let mut known: usize = visited.len();
        while next < known
            invariant
                known == visited.order().len(),
                edge == toward(self@, upward),
                world == linked(self.nodes@),
                world.finite(),
                visited@ == visited.order().to_set(),
                walk_so_far(edge, start@, world, visited.order(), next as int),
            decreases world.len() - next,
        {
            let ghost order = visited.order();
            proof {
                assert(visited@.subset_of(world));
                vstd::set_lib::lemma_len_subset(visited@, world);
                order.unique_seq_to_set();
            }
            let current = visited.get(next).clone();
            match self.links(current.as_str(), upward) {
                Some(list) => {
                    visit_all(&mut visited, list);
                    known = visited.len();
                    proof {
                        let links = string_views(list@).to_set();
                        assert forall|y: Seq<char>| #[trigger] links.contains(y) <==> edge(
                            order[next as int],
                            y,
                        ) by {
                            assert(links.contains(y) == string_views(list@).contains(y));
                            assert(toward(self@, upward)(current@, y) == edge(current@, y));
                        }
                        assert(links.subset_of(world));
                        lemma_walk_goes_on(
                            edge,
                            start@,
                            world,
                            order,
                            next as int,
                            links,
                            visited.order(),
                        );
                    }
                },
                None => {
                    proof {
                        let links = Set::<Seq<char>>::empty();
                        assert forall|y: Seq<char>| #[trigger] links.contains(y) <==> edge(
                            order[next as int],
                            y,
                        ) by {
                            assert(!toward(self@, upward)(current@, y));
                        }
                        assert(order.take(order.len() as int) =~= order);
                        assert(order.to_set().union(links) =~= order.to_set());
                        lemma_walk_goes_on(edge, start@, world, order, next as int, links, order);
                    }
                },
            }
            next += 1;
        }
        proof {
            assert forall|y: Seq<char>, z: Seq<char>|
                visited@.contains(y) && #[trigger] edge(y, z) implies visited@.contains(z) by {
                assert(visited.order().contains(y));
                let k = choose|k: int| 0 <= k < visited.order().len() && visited.order()[k] == y;
                assert(edge(visited.order()[k], z));
            }
            closed_set_holds_reached(edge, start@, visited@);
            assert(visited@ =~= reached(edge, start@));
        }
        visited
    }

    /// The hashes of all events that come before an event: its parents, their
    /// parents, and so on. None for a hash that is not in the graph.
    #[must_use]
    pub fn ancestors(&self, hash: &str) -> (r: StringSet)
        ensures
            r@ == reached(up(self@), hash@),
    {
        self.walk(hash, true)
    }

    /// The hashes of all events that come after an event: its children, their
    /// children, and so on. None for a hash that is not in the graph.
    #[must_use]
    pub fn descendants(&self, hash: &str) -> (r: StringSet)
        ensures
            r@ == reached(down(self@), hash@),
    {
        self.walk(hash, false)
    }

    /// Whether event `a` comes before event `b`.
    #[must_use]
    pub fn is_ancestor(&self, a: &str, b: &str) -> (r: bool)
        ensures
            r == precedes(self@, a@, b@),
    {
        if str_eq(a, b) {
            return false;
        }
        self.ancestors(b).contains(a)
    }

    /// Whether neither of two different events comes before the other.
    #[must_use]
    pub fn are_concurrent(&self, a: &str, b: &str) -> (r: bool)
        ensures
            r == (a@ != b@ && !precedes(self@, a@, b@) && !precedes(self@, b@, a@)),
    {
        if str_eq(a, b) {
            return false;
        }
        !self.is_ancestor(a, b) && !self.is_ancestor(b, a)
    }

    /// All hashes in the graph.
    pub fn hashes(&self) -> (r: Vec<&str>)
        ensures
            views(r@).no_duplicates(),
            views(r@).to_set() == self@.dom(),
    {
        proof {
            use_type_invariant(&*self);
            self.lemma_dom();
        }
        let ghost all = Seq::new(self.nodes@.len(), |i: int| node_hash(self.nodes@, i));
        let mut r: Vec<&str> = Vec::new();
        let mut i: usize = 0;
        while i < self.nodes.len()
            invariant
                i <= self.nodes.len(),
                all == Seq::new(self.nodes@.len(), |i: int| node_hash(self.nodes@, i)),
                views(r@) =~= all.take(i as int),
            decreases self.nodes.len() - i,
        {
            let ghost was = views(r@);
            r.push(self.nodes[i].event.event_hash.as_str());
            assert(views(r@) =~= was.push(all[i as int]));
            assert(all.take(i + 1) =~= all.take(i as int).push(all[i as int]));
            i += 1;
        }
        proof {
            assert(all.take(i as int) =~= all);
            assert forall|a: int, b: int|
                0 <= a < all.len() && 0 <= b < all.len() && a != b implies all[a] != all[b] by {
                assert(self.index@[node_hash(self.nodes@, a)] == a);
                assert(self.index@[node_hash(self.nodes@, b)] == b);
            }
        }
        r
    }

    /// All nodes of the graph, each with its hash.
    pub fn nodes(&self) -> (r: Vec<(&str, &DagNode)>)
        ensures
            r@.len() == self@.dom().len(),
            forall|i: int|
                0 <= i < r@.len() ==> {
                    &&& self@.contains_key((#[trigger] r@[i]).0@)
                    &&& r@[i].1.event@ == self@[r@[i].0@]
                    &&& string_views(r@[i].1.parents@) == self@[r@[i].0@].parents
                    &&& string_views(r@[i].1.children@).to_set() == children_of(self@, r@[i].0@)
                },
            forall|i: int, j: int| 0 <= i < j < r@.len() ==> r@[i].0@ != r@[j].0@,
    {
        proof {
            use_type_invariant(&*self);
            self.lemma_dom();
        }
        let mut r: Vec<(&str, &DagNode)> = Vec::new();
        let mut i: usize = 0;
        while i < self.nodes.len()
            invariant
                well_linked(self.nodes@, self.index@),
                i <= self.nodes.len(),
                r.len() == i,
                forall|k: int|
                    0 <= k < i ==> (#[trigger] r@[k]).0@ == node_hash(self.nodes@, k) && *r@[k].1
                        == self.nodes@[k],
            decreases self.nodes.len() - i,
        {
            let node = &self.nodes[i];
            r.push((node.event.event_hash.as_str(), node));
            i += 1;
        }
        proof {
            assert forall|k: int| 0 <= k < r@.len() implies {
                &&& self@.contains_key((#[trigger] r@[k]).0@)
                &&& r@[k].1.event@ == self@[r@[k].0@]
                &&& string_views(r@[k].1.parents@) == self@[r@[k].0@].parents
                &&& string_views(r@[k].1.children@).to_set() == children_of(self@, r@[k].0@)
            } by {
                assert(self.index@.contains_key(node_hash(self.nodes@, k)));
                assert(self.index@[node_hash(self.nodes@, k)] == k);
            }
            assert forall|a: int, b: int| 0 <= a < b < r@.len() implies r@[a].0@ != r@[b].0@ by {
                assert(self.index@[node_hash(self.nodes@, a)] == a);
                assert(self.index@[node_hash(self.nodes@, b)] == b);
            }
        }
        r
    }

    /// Whether all parents of a node that are in the graph are done.
    fn unblocked(&self, i: usize, done: &Vec<bool>) -> (r: bool)
        requires
            i < self.nodes@.len(),
            done@.len() == self.nodes@.len(),
        ensures
            r == clear(self.nodes@, self.index@, done@, i as int),
    {
        proof {
            use_type_invariant(&*self);
        }
        let parents = &self.nodes[i].parents;
        let mut p: usize = 0;
        while p < parents.len()
            invariant
                p <= parents.len(),
                i < self.nodes@.len(),
                *parents == self.nodes@[i as int].parents,
                well_linked(self.nodes@, self.index@),
                done@.len() == self.nodes@.len(),
                forall|k: int|
                    0 <= k < p && self.index@.contains_key((#[trigger] parents@[k])@)
                        ==> done@[self.index@[parents@[k]@] as int],
            decreases parents.len() - p,
        {
            if let Some(j) = self.index.get(parents[p].as_str()) {
                assert(self.index@.contains_key(parents@[p as int]@));
                if !done[*j] {
                    return false;
                }
            }
            p += 1;
        }
        true
    }

    /// The events in causal order: parents come before children. Of several
    /// events that could come next, the one with the least hash does.
    #[must_use]
    pub fn topological_order(&self) -> (r: Vec<&Event>)
        ensures
            causal_order(self@, hashes_of(r@)),
            forall|i: int|
                0 <= i < r@.len() ==> (#[trigger] r@[i])@ == self@[hashes_of(r@)[i]],
    {
        proof {
            use_type_invariant(&*self);
        }
        let n = self.nodes.len();
        let ghost nodes = self.nodes@;
        let ghost index = self.index@;
        let ghost g = self@;
        let mut done: Vec<bool> = Vec::new();
        let mut free: Vec<bool> = Vec::new();
        let mut i: usize = 0;
        while i < n
            invariant
                i <= n,
                n == nodes.len(),
                done.len() == i,
                forall|k: int| 0 <= k < i ==> !#[trigger] done@[k],
            decreases n - i,
        {
            done.push(false);
            i += 1;
        }
        let mut i: usize = 0;
        while i < n
            invariant
                i <= n,
                nodes == self.nodes@,
                index == self.index@,
                n == nodes.len(),
                done.len() == n,
                free.len() == i,
                forall|k: int| 0 <= k < i ==> #[trigger] free@[k] == clear(nodes, index, done@, k),
            decreases n - i,
        {
            free.push(self.unblocked(i, &done));
            i += 1;
        }
        let mut r: Vec<&Event> = Vec::new();
        let mut more = true;
        proof {
            assert(hashes_of(r@) =~= Seq::empty());
        }
        while more
            invariant
                well_linked(nodes, index),
                nodes == self.nodes@,
                index == self.index@,
                g == self@,
                n == nodes.len(),
                done.len() == n,
                free.len() == n,
                forall|k: int| 0 <= k < n ==> #[trigger] free@[k] == clear(nodes, index, done@, k),
                forall|k: int|
                    0 <= k < n ==> #[trigger] done@[k] == hashes_of(r@).contains(
                        node_hash(nodes, k),
                    ),
                stepwise(g, hashes_of(r@)),
                forall|k: int| 0 <= k < r@.len() ==> (#[trigger] r@[k])@ == g[hashes_of(r@)[k]],
                !more ==> forall|h: Seq<char>| !#[trigger] ready(g, hashes_of(r@), h),
            decreases undone(done@) + if more {
                1nat
            } else {
                0nat
            },
        {
            let ghost order = hashes_of(r@);
            let mut best: Option<usize> = None;
            let mut i: usize = 0;
            while i < n
                invariant
                    i <= n,
                    nodes == self.nodes@,
                    n == nodes.len(),
                    done.len() == n,
                    free.len() == n,
                    match best {
                        Some(b) => b < i && free@[b as int] && !done@[b as int] && forall|k: int|
                            0 <= k < i && free@[k] && !done@[k] ==> lex_le(
                                node_hash(nodes, b as int),
                                #[trigger] node_hash(nodes, k),
                            ),
                        None => forall|k: int| 0 <= k < i ==> !(#[trigger] free@[k] && !done@[k]),
                    },
                decreases n - i,
            {
                if free[i] && !done[i] {
                    match best {
                        None => {
                            best = Some(i);
                        },
                        Some(b) => {
                            let ghost x = node_hash(nodes, i as int);
                            let ghost y = node_hash(nodes, b as int);
                            let rank = str_rank(
                                self.nodes[i].event.event_hash.as_str(),
                                self.nodes[b].event.event_hash.as_str(),
                            );
                            proof {
                                lex_lt_total(x, y);
                                lex_lt_asymmetric(y, x);
                            }
                            if let Rank::Less = rank {
                                proof {
                                    assert forall|k: int|
                                        0 <= k < i + 1 && free@[k] && !done@[k] implies lex_le(
                                        x,
                                        #[trigger] node_hash(nodes, k),
                                    ) by {
                                        let z = node_hash(nodes, k);
                                        if k < i {
                                            assert(lex_le(y, z));
                                            if y != z {
                                                lex_lt_transitive(x, y, z);
                                            }
                                        }
                                    }
                                }
                                best = Some(i);
                            }
                        },
                    }
                }
                i += 1;
            }
            match best {
                None => {
                    proof {
                        assert forall|h: Seq<char>| !#[trigger] ready(g, order, h) by {
                            if ready(g, order, h) {
                                lemma_ready_is_clear(nodes, index, done@, order, h);
                                assert(free@[index[h] as int]);
                            }
                        }
                    }
                    more = false;
                },
                Some(b) => {
                    let ghost x = node_hash(nodes, b as int);
                    let ghost was_done = done@;
                    let ghost was_free = free@;
                    r.push(&self.nodes[b].event);
                    proof {
                        assert(index.contains_key(x) && index[x] == b);
                        assert(hashes_of(r@) =~= order.push(x));
                        lemma_clear_is_ready(nodes, index, done@, order, b as int);
                        assert forall|h: Seq<char>| #[trigger] ready(g, order, h) implies lex_le(
                            x,
                            h,
                        ) by {
                            lemma_ready_is_clear(nodes, index, done@, order, h);
                            assert(free@[index[h] as int]);
                            assert(node_hash(nodes, index[h] as int) == h);
                        }
                        lemma_stepwise_push(g, order, x);
                        lemma_undone(done@, b as int);
                        to_set_of_push(order, x);
                        assert forall|k: int| 0 <= k < r@.len() implies (#[trigger] r@[k])@
                            == g[hashes_of(r@)[k]] by {
                            if k < order.len() {
                                assert(hashes_of(r@)[k] == order[k]);
                            }
                        }
                    }
                    done.set(b, true);
                    proof {
                        assert forall|k: int| 0 <= k < n implies #[trigger] done@[k] == hashes_of(
                            r@,
                        ).contains(node_hash(nodes, k)) by {
                            let y = node_hash(nodes, k);
                            assert(order.push(x).to_set().contains(y) == order.push(x).contains(y));
                            assert(order.to_set().contains(y) == order.contains(y));
                            assert(index[node_hash(nodes, k)] == k);
                            assert(was_done[k] == order.contains(y));
                        }
                    }
                    let children = &self.nodes[b].children;
                    let mut c: usize = 0;
                    while c < children.len()
                        invariant
                            c <= children.len(),
                            well_linked(nodes, index),
                            nodes == self.nodes@,
                            index == self.index@,
                            n == nodes.len(),
                            b < n,
                            *children == nodes[b as int].children,
                            done.len() == n,
                            free.len() == n,
                            was_done.len() == n,
                            was_free.len() == n,
                            done@ == was_done.update(b as int, true),
                            forall|k: int|
                                0 <= k < n ==> #[trigger] was_free[k] == clear(
                                    nodes,
                                    index,
                                    was_done,
                                    k,
                                ),
                            forall|k: int|
                                0 <= k < n ==> #[trigger] free@[k] == if string_views(
                                    children@,
                                ).take(c as int).contains(node_hash(nodes, k)) {
                                    clear(nodes, index, done@, k)
                                } else {
                                    was_free[k]
                                },
                        decreases children.len() - c,
                    {
                        let ghost all = string_views(children@);
                        let ghost before = free@;
                        let child = children[c].as_str();
                        assert(all[c as int] == child@);
                        if let Some(j) = self.index.get(child) {
                            let j = *j;
                            let now_free = self.unblocked(j, &done);
                            free.set(j, now_free);
                        }
                        proof {
                            let part = all.take(c as int);
                            let next = all.take(c + 1);
                            assert(next =~= part.push(child@));
                            to_set_of_push(part, child@);
                            assert forall|k: int| 0 <= k < n implies #[trigger] free@[k]
                                == if next.contains(node_hash(nodes, k)) {
                                clear(nodes, index, done@, k)
                            } else {
                                was_free[k]
                            } by {
                                let y = node_hash(nodes, k);
                                assert(next.to_set().contains(y) == next.contains(y));
                                assert(part.to_set().contains(y) == part.contains(y));
                                assert(index.contains_key(y) && index[y] == k);
                                assert(before[k] == if part.contains(y) {
                                    clear(nodes, index, done@, k)
                                } else {
                                    was_free[k]
                                });
                                if index.contains_key(child@) && index[child@] != k {
                                    assert(child@ != y);
                                }
                            }
                        }
                        c += 1;
                    }
                    proof {
                        let kids = string_views(children@);
                        assert(kids.take(c as int) =~= kids);
                        assert(kids.to_set() == children_of(g, x));
                        assert forall|k: int| 0 <= k < n implies #[trigger] free@[k] == clear(
                            nodes,
                            index,
                            done@,
                            k,
                        ) by {
                            let y = node_hash(nodes, k);
                            assert(kids.to_set().contains(y) == kids.contains(y));
                            assert(index.contains_key(y) && index[y] == k);
                            if !kids.contains(y) {
                                assert(!g[y].parents.contains(x));
                                lemma_clear_unmoved(nodes, index, was_done, b as int, k);
                            }
                        }
                    }
                },
            }
        }
        r
    }
}

/// Whether all parents of a node that are in the graph are done.
spec fn clear(
    nodes: Seq<DagNode>,
    index: Map<Seq<char>, usize>,
    done: Seq<bool>,
    i: int,
) -> bool {
    forall|k: int|
        0 <= k < nodes[i].parents@.len() && index.contains_key((#[trigger] nodes[i].parents@[k])@)
            ==> done[index[nodes[i].parents@[k]@] as int]
}

/// The number of nodes that are not done.
spec fn undone(done: Seq<bool>) -> nat
    decreases done.len(),
{
    if done.len() == 0 {
        0
    } else {
        undone(done.drop_last()) + if done.last() {
            0nat
        } else {
            1nat
        }
    }
}

proof fn lemma_undone(done: Seq<bool>, i: int)
    requires
        0 <= i < done.len(),
        !done[i],
    ensures
        undone(done.update(i, true)) + 1 == undone(done),
    decreases done.len(),
{
    let next = done.update(i, true);
    if i == done.len() - 1 {
        assert(next.drop_last() =~= done.drop_last());
    } else {
        lemma_undone(done.drop_last(), i);
        assert(next.drop_last() =~= done.drop_last().update(i, true));
    }
}

proof fn lemma_clear_unmoved(
    nodes: Seq<DagNode>,
    index: Map<Seq<char>, usize>,
    done: Seq<bool>,
    b: int,
    i: int,
)
    requires
        well_linked(nodes, index),
        done.len() == nodes.len(),
        0 <= b < nodes.len(),
        0 <= i < nodes.len(),
        !nodes[i].event@.parents.contains(node_hash(nodes, b)),
    ensures
        clear(nodes, index, done.update(b, true), i) == clear(nodes, index, done, i),
{
    let parents = nodes[i].parents@;
    assert forall|k: int| 0 <= k < parents.len() && index.contains_key(
        (#[trigger] parents[k])@,
    ) implies index[parents[k]@] != b by {
        assert(string_views(parents)[k] == parents[k]@);
        assert(nodes[i].event@.parents.contains(parents[k]@));
    }
    if clear(nodes, index, done.update(b, true), i) {
        assert forall|k: int| 0 <= k < parents.len() && index.contains_key(
            (#[trigger] parents[k])@,
        ) implies done[index[parents[k]@] as int] by {
            assert(done.update(b, true)[index[parents[k]@] as int]);
        }
    }
}

proof fn lemma_ready_is_clear(
    nodes: Seq<DagNode>,
    index: Map<Seq<char>, usize>,
    done: Seq<bool>,
    order: Seq<Seq<char>>,
    h: Seq<char>,
)
    requires
        well_linked(nodes, index),
        done.len() == nodes.len(),
        forall|k: int|
            0 <= k < nodes.len() ==> #[trigger] done[k] == order.contains(node_hash(nodes, k)),
        ready(graph_of(nodes, index), order, h),
    ensures
        index.contains_key(h),
        0 <= index[h] < nodes.len(),
        !done[index[h] as int],
        clear(nodes, index, done, index[h] as int),
{
    let i = index[h] as int;
    let g = graph_of(nodes, index);
    assert(g.contains_key(h));
    assert(node_hash(nodes, i) == h);
    assert forall|k: int| 0 <= k < nodes[i].parents@.len() && index.contains_key(
        (#[trigger] nodes[i].parents@[k])@,
    ) implies done[index[nodes[i].parents@[k]@] as int] by {
        let p = nodes[i].parents@[k]@;
        assert(string_views(nodes[i].parents@)[k] == p);
        assert(g[h].parents.contains(p));
        assert(g.contains_key(p));
        assert(order.contains(p));
        assert(node_hash(nodes, index[p] as int) == p);
    }
}

proof fn lemma_clear_is_ready(
    nodes: Seq<DagNode>,
    index: Map<Seq<char>, usize>,
    done: Seq<bool>,
    order: Seq<Seq<char>>,
    i: int,
)
    requires
        well_linked(nodes, index),
        done.len() == nodes.len(),
        forall|k: int|
            0 <= k < nodes.len() ==> #[trigger] done[k] == order.contains(node_hash(nodes, k)),
        0 <= i < nodes.len(),
        !done[i],
        clear(nodes, index, done, i),
    ensures
        ready(graph_of(nodes, index), order, node_hash(nodes, i)),
{
    let g = graph_of(nodes, index);
    let h = node_hash(nodes, i);
    assert(index.contains_key(h) && index[h] == i);
    assert forall|p: Seq<char>|
        g[h].parents.contains(p) && g.contains_key(p) implies #[trigger] order.contains(p) by {
        let k = choose|k: int| 0 <= k < g[h].parents.len() && g[h].parents[k] == p;
        assert(string_views(nodes[i].parents@)[k] == p);
        assert(nodes[i].parents@[k]@ == p);
        assert(index.contains_key(p));
        assert(done[index[p] as int]);
        assert(node_hash(nodes, index[p] as int) == p);
    }
}

proof fn lemma_stepwise_push(g: Graph, order: Seq<Seq<char>>, x: Seq<char>)
    requires
        stepwise(g, order),
        ready(g, order, x),
        forall|h: Seq<char>| #[trigger] ready(g, order, h) ==> lex_le(x, h),
    ensures
        stepwise(g, order.push(x)),
{
    let next = order.push(x);
    assert forall|i: int| 0 <= i < next.len() implies ready(g, next.take(i), #[trigger] next[i])
        && (forall|h: Seq<char>| #[trigger] ready(g, next.take(i), h) ==> lex_le(next[i], h)) by {
        assert(next.take(i) =~= order.take(i));
        if i < order.len() {
            assert(next[i] == order[i]);
        } else {
            assert(order.take(i) =~= order);
        }
    }
}

/// In causal order no event occurs twice, every event is one of the graph, and
/// every parent that is in the graph comes before its child.
pub proof fn causal_order_is_causal(g: Graph, order: Seq<Seq<char>>)
    requires
        causal_order(g, order),
    ensures
        order.no_duplicates(),
        forall|i: int| 0 <= i < order.len() ==> g.contains_key(#[trigger] order[i]),
        forall|i: int, p: Seq<char>|
            #![trigger g[order[i]].parents.contains(p)]
            0 <= i < order.len() && g[order[i]].parents.contains(p) && g.contains_key(p)
                ==> order.take(i).contains(p),
{
    assert forall|i: int, j: int|
        0 <= i < order.len() && 0 <= j < order.len() && i < j implies order[i] != order[j] by {
        assert(ready(g, order.take(j), order[j]));
        assert(order.take(j)[i] == order[i]);
    }
    assert forall|i: int, p: Seq<char>|
        #![trigger g[order[i]].parents.contains(p)]
        0 <= i < order.len() && g[order[i]].parents.contains(p) && g.contains_key(
            p,
        ) implies order.take(i).contains(p) by {
        assert(ready(g, order.take(i), order[i]));
    }
}

/// In a graph without cycles, causal order holds every event. That there is no
/// cycle is said by a height that every child has above its parents.
pub proof fn causal_order_is_complete(
    g: Graph,
    order: Seq<Seq<char>>,
    height: spec_fn(Seq<char>) -> nat,
    h: Seq<char>,
)
    requires
        causal_order(g, order),
        forall|c: Seq<char>, p: Seq<char>|
            #![trigger up(g)(c, p)]
            up(g)(c, p) && g.contains_key(p) ==> height(p) < height(c),
        g.contains_key(h),
    ensures
        order.contains(h),
    decreases height(h),
{
    if !order.contains(h) {
        assert(!ready(g, order, h));
        let p = choose|p: Seq<char>|
            g[h].parents.contains(p) && g.contains_key(p) && !#[trigger] order.contains(p);
        assert(up(g)(h, p));
        causal_order_is_complete(g, order, height, p);
    }
}

/// Two causal orders of one graph are the same.
pub proof fn causal_order_is_unique(g: Graph, a: Seq<Seq<char>>, b: Seq<Seq<char>>)
    requires
        causal_order(g, a),
        causal_order(g, b),
    ensures
        a == b,
{
    lemma_same_prefix(g, a, b, a.len() as int);
    if b.len() > a.len() {
        assert(ready(g, b.take(a.len() as int), b[a.len() as int]));
        assert(a.take(a.len() as int) =~= a);
    }
    assert(b.take(b.len() as int) =~= b);
    assert(a.take(a.len() as int) =~= a);
}

proof fn lemma_same_prefix(g: Graph, a: Seq<Seq<char>>, b: Seq<Seq<char>>, n: int)
    requires
        causal_order(g, a),
        causal_order(g, b),
        0 <= n <= a.len(),
    ensures
        n <= b.len(),
        a.take(n) == b.take(n),
    decreases n,
{
    if n > 0 {
        lemma_same_prefix(g, a, b, n - 1);
        let x = a[n - 1];
        assert(ready(g, a.take(n - 1), x));
        if b.len() < n {
            assert(b.take(n - 1) =~= b);
        } else {
            let y = b[n - 1];
            assert(ready(g, b.take(n - 1), y));
            lex_lt_asymmetric(x, y);
            assert(x == y);
            assert(a.take(n) =~= a.take(n - 1).push(x));
            assert(b.take(n) =~= b.take(n - 1).push(y));
        }
    } else {
        assert(a.take(0) =~= b.take(0));
    }
}

/// The graph that inserting events one after the other builds.
pub open spec fn graph_from(events: Seq<Event>) -> Graph
    decreases events.len(),
{
    if events.len() == 0 {
        Map::empty()
    } else {
        let before = graph_from(events.drop_last());
        let e = events.last()@;
        if before.contains_key(e.event_hash) {
            before
        } else {
            before.insert(e.event_hash, e)
        }
    }
}

proof fn lemma_graph_from(events: Seq<Event>, h: Seq<char>)
    ensures
        graph_from(events).contains_key(h) <==> exists|i: int|
            0 <= i < events.len() && (#[trigger] events[i])@.event_hash == h,
        graph_from(events).contains_key(h) ==> exists|i: int|
            0 <= i < events.len() && (#[trigger] events[i])@.event_hash == h && events[i]@
                == graph_from(events)[h],
    decreases events.len(),
{
    if events.len() > 0 {
        let front = events.drop_last();
        lemma_graph_from(front, h);
        assert(events[events.len() - 1] == events.last());
        if graph_from(front).contains_key(h) {
            let i = choose|i: int|
                0 <= i < front.len() && (#[trigger] front[i])@.event_hash == h && front[i]@
                    == graph_from(front)[h];
            assert(events[i] == front[i]);
        }
        if exists|i: int| 0 <= i < events.len() && (#[trigger] events[i])@.event_hash == h {
            let i = choose|i: int| 0 <= i < events.len() && (#[trigger] events[i])@.event_hash == h;
            if i < front.len() {
                assert(front[i] == events[i]);
            }
        }
    }
}

/// Whether two lists hold the same events.
pub open spec fn same_events(a: Seq<Event>, b: Seq<Event>) -> bool {
    event_views(a).to_set() == event_views(b).to_set()
}

/// The order in which events are inserted does not matter, nor how often each
/// is, as long as no two different events share a hash.
pub proof fn insertion_order_does_not_matter(a: Seq<Event>, b: Seq<Event>)
    requires
        same_events(a, b),
        forall|i: int, j: int|
            0 <= i < a.len() && 0 <= j < a.len() && (#[trigger] a[i])@.event_hash == (
            #[trigger] a[j])@.event_hash ==> a[i]@ == a[j]@,
    ensures
        graph_from(a) == graph_from(b),
{
    let ga = graph_from(a);
    let gb = graph_from(b);
    assert forall|h: Seq<char>| ga.contains_key(h) == #[trigger] gb.contains_key(h) by {
        lemma_graph_from(a, h);
        lemma_graph_from(b, h);
        if ga.contains_key(h) {
            let i = choose|i: int| 0 <= i < a.len() && (#[trigger] a[i])@.event_hash == h;
            lemma_among_same(a, b, i);
        }
        if gb.contains_key(h) {
            let i = choose|i: int| 0 <= i < b.len() && (#[trigger] b[i])@.event_hash == h;
            lemma_among_same(b, a, i);
        }
    }
    assert forall|h: Seq<char>| #[trigger] ga.contains_key(h) implies ga[h] == gb[h] by {
        lemma_graph_from(a, h);
        lemma_graph_from(b, h);
        assert(gb.contains_key(h));
        let i = choose|i: int|
            0 <= i < a.len() && (#[trigger] a[i])@.event_hash == h && a[i]@ == ga[h];
        let j = choose|j: int|
            0 <= j < b.len() && (#[trigger] b[j])@.event_hash == h && b[j]@ == gb[h];
        lemma_among_same(b, a, j);
        let k = choose|k: int| 0 <= k < a.len() && (#[trigger] a[k])@ == b[j]@;
        assert(a[i]@ == a[k]@);
    }
    assert(ga =~= gb);
}

proof fn lemma_among_same(a: Seq<Event>, b: Seq<Event>, i: int)
    requires
        same_events(a, b),
        0 <= i < a.len(),
    ensures
        exists|j: int| 0 <= j < b.len() && (#[trigger] b[j])@ == a[i]@,
{
    let va = event_views(a);
    let vb = event_views(b);
    assert(va[i] == a[i]@);
    assert(va.contains(a[i]@));
    assert(va.to_set().contains(a[i]@));
    assert(vb.to_set().contains(a[i]@));
    assert(vb.contains(a[i]@));
    let j = choose|j: int| 0 <= j < vb.len() && vb[j] == a[i]@;
    assert(b[j]@ == a[i]@);
}

/// Whether an event is in the graph and none of its parents is.
pub open spec fn is_root(g: Graph, h: Seq<char>) -> bool {
    g.contains_key(h) && forall|p: Seq<char>|
        g[h].parents.contains(p) ==> !#[trigger] g.contains_key(p)
}

/// Whether an event is in the graph and no event there names it as a parent.
pub open spec fn is_tip(g: Graph, h: Seq<char>) -> bool {
    g.contains_key(h) && forall|c: Seq<char>| !#[trigger] children_of(g, h).contains(c)
}

/// The links of a graph in one direction.
pub open spec fn toward(g: Graph, upward: bool) -> Edge {
    if upward {
        up(g)
    } else {
        down(g)
    }
}

/// Whether event `a` is another event than `b` and comes before it.
pub open spec fn precedes(g: Graph, a: Seq<char>, b: Seq<char>) -> bool {
    a != b && leads(up(g), b, a)
}

impl Default for EventDag {
    fn default() -> (r: Self)
        ensures
            r@ == Map::<Seq<char>, EventView>::empty(),
    {
        EventDag::new()
    }
}

}
