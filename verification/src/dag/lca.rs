//! Lowest common ancestors.
//!
//! A common ancestor of two events is one that comes before both, or one of the
//! two that comes before the other. It is lowest if no other common ancestor
//! comes after it: there the two branches part.

use crate::dag::graph::{closed_set_holds_reached, leads, leads_further, up, EventDag, Graph};
use crate::event::json::{ascending, place};
use crate::text::order::{lex_lt, lex_lt_asymmetric};
use crate::text::set::StringSet;
use crate::text::slice::{holds, opt_view, str_eq, string_views};
use vstd::prelude::*;

verus! {

/// Why no common ancestor is looked for.
#[derive(Debug, PartialEq, Eq)]
pub enum LcaError {
    /// One of the two events is not in the graph.
    EventNotFound(String),
}

impl LcaError {
    /// Explains the error.
    pub fn to_string(&self) -> (r: String)
        ensures
            r@ == match *self {
                LcaError::EventNotFound(h) => "event not found in DAG: "@ + h@,
            },
    {
        match self {
            LcaError::EventNotFound(h) => {
                let mut s = "event not found in DAG: ".to_owned();
                s.append(h.as_str());
                s
            },
        }
    }
}

impl Clone for LcaError {
    fn clone(&self) -> (r: Self)
        ensures
            r == *self,
    {
        match self {
            LcaError::EventNotFound(h) => LcaError::EventNotFound(h.clone()),
        }
    }
}

/// Whether a hash is an event or comes before it.
pub open spec fn at_or_above(g: Graph, tip: Seq<char>, x: Seq<char>) -> bool {
    x == tip || leads(up(g), tip, x)
}

/// Whether a hash is at or above two events.
pub open spec fn common(g: Graph, a: Seq<char>, b: Seq<char>, x: Seq<char>) -> bool {
    at_or_above(g, a, x) && at_or_above(g, b, x)
}

/// Whether a common ancestor has no other common ancestor after it.
pub open spec fn lowest(g: Graph, a: Seq<char>, b: Seq<char>, x: Seq<char>) -> bool {
    common(g, a, b, x) && forall|y: Seq<char>| #[trigger] common(g, a, b, y) ==> !leads(up(g), y, x)
}

/// The first of two events that is not in the graph.
pub open spec fn absent(g: Graph, a: Seq<char>, b: Seq<char>) -> Option<Seq<char>> {
    if !g.contains_key(a) {
        Some(a)
    } else if !g.contains_key(b) {
        Some(b)
    } else {
        None
    }
}

/// A walk up from an event: the hashes it has seen, in order, and which of them
/// it looks at next.
#[verifier::ext_equal]
pub ghost struct Walk {
    pub seen: Seq<Seq<char>>,
    pub next: nat,
}

impl Walk {
    /// A walk that has seen only where it starts.
    pub open spec fn from(tip: Seq<char>) -> Walk {
        Walk { seen: seq![tip], next: 0 }
    }

    /// A step of a walk, next to what another walk has seen: the parents of the
    /// next hash that were not seen before are seen, up to one that the other walk
    /// has seen. That is where the walks meet.
    pub open spec fn step(self, g: Graph, other: Seq<Seq<char>>) -> (Walk, Option<Seq<char>>) {
        if self.next >= self.seen.len() {
            (self, None)
        } else {
            let next = self.next + 1;
            let current = self.seen[self.next as int];
            if g.contains_key(current) {
                let parents = g[current].parents;
                let (seen, met) = looked_at(self.seen, other, parents, parents.len());
                (Walk { seen, next }, met)
            } else {
                (Walk { next, ..self }, None)
            }
        }
    }
}

/// What a walk has seen after it looked at the first parents of a hash, and where
/// it meets another walk.
pub open spec fn looked_at(
    seen: Seq<Seq<char>>,
    other: Seq<Seq<char>>,
    parents: Seq<Seq<char>>,
    n: nat,
) -> (Seq<Seq<char>>, Option<Seq<char>>)
    decreases n,
{
    if n == 0 {
        (seen, None)
    } else {
        let (before, met) = looked_at(seen, other, parents, (n - 1) as nat);
        let parent = parents[n - 1];
        if met is Some || before.contains(parent) {
            (before, met)
        } else if other.contains(parent) {
            (before.push(parent), Some(parent))
        } else {
            (before.push(parent), None)
        }
    }
}

/// Two walks that take turns, and where they have met.
pub ghost struct Walks {
    pub a: Walk,
    pub b: Walk,
    pub met: Option<Seq<char>>,
}

impl Walks {
    /// A turn of both walks, if they have not met.
    pub open spec fn turn(self, g: Graph) -> Walks {
        if self.met is Some {
            self
        } else {
            let (a, met_a) = self.a.step(g, self.b.seen);
            if met_a is Some {
                Walks { a, b: self.b, met: met_a }
            } else {
                let (b, met_b) = self.b.step(g, a.seen);
                Walks { a, b, met: met_b }
            }
        }
    }
}

/// The walks up from two events after some turns.
pub open spec fn walks(g: Graph, a: Seq<char>, b: Seq<char>, turns: nat) -> Walks
    decreases turns,
{
    if turns == 0 {
        Walks { a: Walk::from(a), b: Walk::from(b), met: None }
    } else {
        walks(g, a, b, (turns - 1) as nat).turn(g)
    }
}

/// Whether walks up from two events, taken in turn, meet at a hash.
pub open spec fn meet_at(g: Graph, a: Seq<char>, b: Seq<char>, x: Seq<char>) -> bool {
    exists|turns: nat| (#[trigger] walks(g, a, b, turns)).met == Some(x)
}

/// Whether a hash is the first of the lowest common ancestors.
pub open spec fn first_lowest(g: Graph, a: Seq<char>, b: Seq<char>, x: Seq<char>) -> bool {
    lowest(g, a, b, x) && forall|y: Seq<char>| #[trigger]
        lowest(g, a, b, y) ==> x == y || lex_lt(x, y)
}

/// Whether a hash is the lowest common ancestor that is found: where the walks
/// meet, if that is lowest or if hashes form a cycle and none is, and else the
/// first that is lowest.
pub open spec fn found(g: Graph, a: Seq<char>, b: Seq<char>, x: Seq<char>) -> bool {
    if a == b {
        x == a
    } else {
        exists|m: Seq<char>| #[trigger]
            meet_at(g, a, b, m) && if lowest(g, a, b, m) || forall|y: Seq<char>|
                !#[trigger] lowest(g, a, b, y) {
                x == m
            } else {
                first_lowest(g, a, b, x)
            }
    }
}

/// Whether a walk from an event has seen only what is at or above it, and has
/// seen the parents of everything before its next step.
spec fn walked(g: Graph, tip: Seq<char>, order: Seq<Seq<char>>, next: int) -> bool {
    &&& 0 <= next <= order.len()
    &&& order.contains(tip)
    &&& forall|x: Seq<char>| #[trigger] order.contains(x) ==> at_or_above(g, tip, x)
    &&& forall|k: int, y: Seq<char>|
        0 <= k < next && #[trigger] up(g)(order[k], y) ==> order.contains(y)
}

proof fn lemma_walked_all(g: Graph, tip: Seq<char>, order: Seq<Seq<char>>)
    requires
        walked(g, tip, order, order.len() as int),
    ensures
        forall|x: Seq<char>| at_or_above(g, tip, x) ==> #[trigger] order.contains(x),
{
    let set = order.to_set();
    let edge = up(g);
    assert forall|y: Seq<char>, z: Seq<char>|
        set.contains(y) && #[trigger] edge(y, z) implies set.contains(z) by {
        let k = choose|k: int| 0 <= k < order.len() && order[k] == y;
        assert(up(g)(order[k], z));
        assert(order.contains(z));
    }
    assert forall|y: Seq<char>| #[trigger] edge(tip, y) implies set.contains(y) by {
        assert(set.contains(tip));
    }
    closed_set_holds_reached(edge, tip, set);
    assert forall|x: Seq<char>| at_or_above(g, tip, x) implies #[trigger] order.contains(x) by {
        assert(set.contains(x) == order.contains(x));
    }
}

proof fn lemma_met_stays(
    seen: Seq<Seq<char>>,
    other: Seq<Seq<char>>,
    parents: Seq<Seq<char>>,
    n: nat,
    m: nat,
)
    requires
        n <= m,
        looked_at(seen, other, parents, n).1 is Some,
    ensures
        looked_at(seen, other, parents, m) == looked_at(seen, other, parents, n),
    decreases m - n,
{
    if n < m {
        lemma_met_stays(seen, other, parents, n, (m - 1) as nat);
    }
}

proof fn lemma_walks_stay(g: Graph, a: Seq<char>, b: Seq<char>, n: nat, m: nat)
    requires
        n <= m,
        walks(g, a, b, n).met is Some || walks(g, a, b, n).turn(g) == walks(g, a, b, n),
    ensures
        walks(g, a, b, m) == walks(g, a, b, n),
    decreases m - n,
{
    if n < m {
        lemma_walks_stay(g, a, b, n, (m - 1) as nat);
    }
}

proof fn lemma_walks_meet_once(g: Graph, a: Seq<char>, b: Seq<char>, x: Seq<char>, y: Seq<char>)
    requires
        meet_at(g, a, b, x),
        meet_at(g, a, b, y),
    ensures
        x == y,
{
    let n = choose|turns: nat| (#[trigger] walks(g, a, b, turns)).met == Some(x);
    let m = choose|turns: nat| (#[trigger] walks(g, a, b, turns)).met == Some(y);
    if n <= m {
        lemma_walks_stay(g, a, b, n, m);
    } else {
        lemma_walks_stay(g, a, b, m, n);
    }
}

/// Takes one step of a walk: visits the parents of the next hash. Returns the
/// first of them that the other walk has visited.
fn bfs_step(
    dag: &EventDag,
    next: usize,
    visited: &mut StringSet,
    other: &StringSet,
    Ghost(tip): Ghost<Seq<char>>,
) -> (r: Option<String>)
    requires
        next < old(visited).order().len(),
        old(visited)@ == old(visited).order().to_set(),
        walked(dag@, tip, old(visited).order(), next as int),
        forall|x: Seq<char>| #[trigger] other@.contains(x) ==> !old(visited)@.contains(x),
        other@ == other.order().to_set(),
    ensures
        final(visited)@ == final(visited).order().to_set(),
        (Walk { seen: old(visited).order(), next: next as nat }).step(dag@, other.order()) == (
            Walk { seen: final(visited).order(), next: (next + 1) as nat },
            opt_view(r),
        ),
        match r {
            Some(meet) => other@.contains(meet@) && at_or_above(dag@, tip, meet@),
            None => {
                &&& walked(dag@, tip, final(visited).order(), next + 1)
                &&& forall|x: Seq<char>| #[trigger] other@.contains(x) ==> !final(visited)@.contains(x)
                &&& forall|x: Seq<char>| #[trigger]
                    final(visited)@.contains(x) ==> old(visited)@.contains(x) || dag.targets().contains(x)
            },
        },
{
    let ghost g = dag@;
    let ghost start = visited.order();
    let ghost start_set = visited@;
    let current = visited.get(next).clone();
    if let Some(node) = dag.get(current.as_str()) {
        let ghost all = g[current@].parents;
        let mut i: usize = 0;
        while i < node.parents.len()
            invariant
                i <= node.parents.len(),
                start == old(visited).order(),
                next < start.len(),
                g == dag@,
                g.contains_key(current@),
                all == g[current@].parents,
                all == string_views(node.parents@),
                current@ == start[next as int],
                at_or_above(g, tip, current@),
                start_set == start.to_set(),
                forall|x: Seq<char>, y: Seq<char>| #[trigger]
                    up(g)(x, y) ==> dag.targets().contains(y),
                visited@ == visited.order().to_set(),
                visited.order().len() >= start.len(),
                visited.order().take(start.len() as int) == start,
                forall|x: Seq<char>| #[trigger] visited@.contains(x) ==> at_or_above(g, tip, x),
                forall|x: Seq<char>| #[trigger] start_set.contains(x) ==> visited@.contains(x),
                forall|k: int| 0 <= k < i ==> visited@.contains(#[trigger] all[k]),
                forall|x: Seq<char>| #[trigger]
                    visited@.contains(x) ==> start_set.contains(x) || dag.targets().contains(x),
                forall|x: Seq<char>| #[trigger] other@.contains(x) ==> !visited@.contains(x),
                other@ == other.order().to_set(),
                looked_at(start, other.order(), all, i as nat) == (
                    visited.order(),
                    None::<Seq<char>>,
                ),
            decreases node.parents.len() - i,
        {
            let parent = &node.parents[i];
            let ghost p = all[i as int];
            let ghost order = visited.order();
            proof {
                assert(p == parent@);
                assert(all.contains(p));
                assert(up(g)(current@, p));
                leads_further(up(g), tip, current@, p);
            }
            let is_new = visited.insert(parent.clone());
            proof {
                crate::text::set::to_set_of_push(order, p);
                assert(visited.order().take(start.len() as int) =~= order.take(start.len() as int));
            }
            assert(order.contains(p) == order.to_set().contains(p));
            assert(other.order().contains(p) == other@.contains(p));
            if is_new && other.contains(parent.as_str()) {
                proof {
                    assert(looked_at(start, other.order(), all, (i + 1) as nat) == (
                        visited.order(),
                        Some(p),
                    ));
                    lemma_met_stays(start, other.order(), all, (i + 1) as nat, all.len());
                }
                return Some(parent.clone());
            }
            i += 1;
        }
        proof {
            let order = visited.order();
            assert(start.contains(tip));
            assert(start_set.contains(tip));
            assert forall|x: Seq<char>| #[trigger] order.contains(x) implies at_or_above(
                g,
                tip,
                x,
            ) by {
                assert(visited@.contains(x));
            }
            assert forall|k: int, y: Seq<char>|
                0 <= k < next + 1 && #[trigger] up(g)(order[k], y) implies order.contains(y) by {
                assert(order.take(start.len() as int)[k] == start[k]);
                if k == next {
                    assert(all.contains(y));
                    let j = choose|j: int| 0 <= j < all.len() && all[j] == y;
                    assert(visited@.contains(all[j]));
                } else {
                    assert(up(g)(start[k], y));
                    assert(start_set.contains(y));
                }
                assert(visited@.contains(y));
            }
        }
    } else {
        proof {
            assert forall|k: int, y: Seq<char>|
                0 <= k < next + 1 && #[trigger] up(g)(start[k], y) implies start.contains(y) by {}
        }
    }
    None
}

/// Walks up from two events in turn. Returns the first hash that both walks
/// have visited.
fn meeting(dag: &EventDag, tip_a: &str, tip_b: &str) -> (r: Option<String>)
    requires
        tip_a@ != tip_b@,
    ensures
        match r {
            Some(x) => common(dag@, tip_a@, tip_b@, x@) && meet_at(dag@, tip_a@, tip_b@, x@),
            None => forall|x: Seq<char>| !#[trigger] common(dag@, tip_a@, tip_b@, x),
        },
{
    let ghost g = dag@;
    let ghost mut turns: nat = 0;
    let mut visited_a = StringSet::new();
    let mut visited_b = StringSet::new();
    visited_a.insert(tip_a.to_owned());
    visited_b.insert(tip_b.to_owned());
    let mut next_a: usize = 0;
    let mut next_b: usize = 0;
    let mut known_a = visited_a.len();
    let mut known_b = visited_b.len();
    let ghost world = dag.targets().insert(tip_a@).insert(tip_b@);
    let _ = dag.get(tip_a);
    proof {
        assert(visited_a.order()[0] == tip_a@);
        assert(visited_b.order()[0] == tip_b@);
        assert forall|x: Seq<char>| #[trigger] visited_a.order().contains(x) implies x
            == tip_a@ by {}
        assert forall|x: Seq<char>| #[trigger] visited_b.order().contains(x) implies x
            == tip_b@ by {}
    }
    proof {
        assert(visited_a.order() =~= seq![tip_a@]);
        assert(visited_b.order() =~= seq![tip_b@]);
    }
    while next_a < known_a || next_b < known_b
        invariant
            g == dag@,
            walks(g, tip_a@, tip_b@, turns) == (Walks {
                a: Walk { seen: visited_a.order(), next: next_a as nat },
                b: Walk { seen: visited_b.order(), next: next_b as nat },
                met: None,
            }),
            world == dag.targets().insert(tip_a@).insert(tip_b@),
            world.finite(),
            known_a == visited_a.order().len(),
            known_b == visited_b.order().len(),
            visited_a.order().no_duplicates(),
            visited_b.order().no_duplicates(),
            visited_a@ == visited_a.order().to_set(),
            visited_b@ == visited_b.order().to_set(),
            walked(g, tip_a@, visited_a.order(), next_a as int),
            walked(g, tip_b@, visited_b.order(), next_b as int),
            forall|x: Seq<char>| #[trigger] visited_a@.contains(x) ==> world.contains(x),
            forall|x: Seq<char>| #[trigger] visited_b@.contains(x) ==> world.contains(x),
            forall|x: Seq<char>| visited_a@.contains(x) ==> !#[trigger] visited_b@.contains(x),
        decreases (world.len() - next_a) + (world.len() - next_b),
    {
        proof {
            vstd::set_lib::lemma_len_subset(visited_a@, world);
            vstd::set_lib::lemma_len_subset(visited_b@, world);
            visited_a.order().unique_seq_to_set();
            visited_b.order().unique_seq_to_set();
        }
        let b_waits = next_b < known_b;
        let ghost walk_a = Walk { seen: visited_a.order(), next: next_a as nat };
        let ghost walk_b = Walk { seen: visited_b.order(), next: next_b as nat };
        assert(walks(g, tip_a@, tip_b@, turns + 1) == walks(g, tip_a@, tip_b@, turns).turn(g));
        if next_a < known_a {
            if let Some(x) = bfs_step(dag, next_a, &mut visited_a, &visited_b, Ghost(tip_a@)) {
                assert(visited_b.order().contains(x@));
                assert(walk_a.step(g, walk_b.seen).1 == Some(x@));
                assert(walks(g, tip_a@, tip_b@, turns + 1).met == Some(x@));
                return Some(x);
            }
            next_a += 1;
            known_a = visited_a.len();
        }
        let ghost walked_a = Walk { seen: visited_a.order(), next: next_a as nat };
        assert(walk_a.step(g, walk_b.seen) == (walked_a, None::<Seq<char>>));
        if b_waits {
            if let Some(x) = bfs_step(dag, next_b, &mut visited_b, &visited_a, Ghost(tip_b@)) {
                assert(visited_a.order().contains(x@));
                assert(walk_b.step(g, walked_a.seen).1 == Some(x@));
                assert(walks(g, tip_a@, tip_b@, turns + 1).met == Some(x@));
                return Some(x);
            }
            next_b += 1;
            known_b = visited_b.len();
        }
        proof {
            let walked_b = Walk { seen: visited_b.order(), next: next_b as nat };
            assert(walk_b.step(g, walked_a.seen) == (walked_b, None::<Seq<char>>));
            turns = turns + 1;
        }
        proof {
            vstd::set_lib::lemma_len_subset(visited_a@, world);
            vstd::set_lib::lemma_len_subset(visited_b@, world);
            visited_a.order().unique_seq_to_set();
            visited_b.order().unique_seq_to_set();
        }
    }
    proof {
        lemma_walked_all(g, tip_a@, visited_a.order());
        lemma_walked_all(g, tip_b@, visited_b.order());
        assert forall|x: Seq<char>| !#[trigger] common(g, tip_a@, tip_b@, x) by {
            if common(g, tip_a@, tip_b@, x) {
                assert(visited_a.order().contains(x));
                assert(visited_b.order().contains(x));
                assert(visited_a@.contains(x));
                assert(visited_b@.contains(x));
            }
        }
    }
    None
}

/// What is at or above an event.
pub(crate) fn at_and_above(dag: &EventDag, tip: &str) -> (r: StringSet)
    ensures
        forall|x: Seq<char>| #[trigger] r@.contains(x) <==> at_or_above(dag@, tip@, x),
{
    let mut r = dag.ancestors(tip);
    r.insert(tip.to_owned());
    r
}

/// The lowest common ancestors of two events, in the order of their hashes.
fn lowest_list(dag: &EventDag, tip_a: &str, tip_b: &str) -> (r: Vec<String>)
    ensures
        ascending(string_views(r@)),
        forall|x: Seq<char>| #[trigger]
            string_views(r@).contains(x) <==> lowest(dag@, tip_a@, tip_b@, x),
{
    let ghost g = dag@;
    let ghost a = tip_a@;
    let ghost b = tip_b@;
    let above_a = at_and_above(dag, tip_a);
    let above_b = at_and_above(dag, tip_b);
    let n = above_a.len();
    let ghost order = above_a.order();
    // Everything that comes before some common ancestor is not lowest.
    let mut passed = StringSet::new();
    let mut i: usize = 0;
    while i < n
        invariant
            i <= n,
            n == order.len(),
            order == above_a.order(),
            g == dag@,
            forall|x: Seq<char>|
                #![trigger passed@.contains(x)]
                passed@.contains(x) <==> exists|k: int|
                    0 <= k < i && above_b@.contains(#[trigger] order[k]) && leads(up(g), order[k], x),
        decreases n - i,
    {
        let y = above_a.get(i);
        let ghost before = passed@;
        if above_b.contains(y.as_str()) {
            let beyond = dag.ancestors(y.as_str());
            let m = beyond.len();
            let mut j: usize = 0;
            let ghost far = beyond.order();
            assert(far.take(0).to_set() =~= Set::empty());
            assert(passed@ =~= before.union(far.take(0).to_set()));
            while j < m
                invariant
                    j <= m,
                    m == far.len(),
                    far == beyond.order(),
                    passed@ == before.union(far.take(j as int).to_set()),
                decreases m - j,
            {
                passed.insert(beyond.get(j).clone());
                proof {
                    assert(far.take(j + 1) =~= far.take(j as int).push(far[j as int]));
                    crate::text::set::to_set_of_push(far.take(j as int), far[j as int]);
                    assert(passed@ =~= before.union(far.take(j + 1).to_set()));
                }
                j += 1;
            }
            assert(far.take(j as int) =~= far);
        }
        proof {
            let here = order[i as int];
            assert forall|x: Seq<char>|
                #![trigger passed@.contains(x)]
                passed@.contains(x) <==> exists|k: int|
                    0 <= k < i + 1 && above_b@.contains(#[trigger] order[k]) && leads(
                        up(g),
                        order[k],
                        x,
                    ) by {
                if before.contains(x) {
                    let k = choose|k: int|
                        0 <= k < i && above_b@.contains(#[trigger] order[k]) && leads(
                            up(g),
                            order[k],
                            x,
                        );
                    assert(above_b@.contains(order[k]));
                }
                if above_b@.contains(here) && leads(up(g), here, x) {
                    assert(passed@.contains(x));
                }
            }
        }
        i += 1;
    }
    let mut r: Vec<String> = Vec::new();
    let mut i: usize = 0;
    assert(string_views(r@) =~= Seq::empty());
    while i < n
        invariant
            i <= n,
            n == order.len(),
            order == above_a.order(),
            order.no_duplicates(),
            ascending(string_views(r@)),
            forall|x: Seq<char>|
                #![trigger string_views(r@).contains(x)]
                string_views(r@).contains(x) <==> order.take(i as int).contains(x)
                    && above_b@.contains(x) && !passed@.contains(x),
        decreases n - i,
    {
        let x = above_a.get(i);
        let ghost part = order.take(i as int);
        let ghost was = string_views(r@);
        proof {
            assert(order.take(i + 1) =~= part.push(x@));
            crate::text::set::to_set_of_push(part, x@);
            assert(!part.contains(x@));
        }
        if above_b.contains(x.as_str()) && !passed.contains(x.as_str()) {
            place(&mut r, x.clone());
        }
        proof {
            let next = order.take(i + 1);
            assert forall|z: Seq<char>|
                #![trigger string_views(r@).contains(z)]
                string_views(r@).contains(z) <==> next.contains(z) && above_b@.contains(z)
                    && !passed@.contains(z) by {
                assert(next.to_set().contains(z) == next.contains(z));
                assert(part.to_set().contains(z) == part.contains(z));
                assert(was.contains(z) <==> part.contains(z) && above_b@.contains(z)
                    && !passed@.contains(z));
            }
        }
        i += 1;
    }
    proof {
        assert(order.take(i as int) =~= order);
        assert forall|x: Seq<char>| #[trigger] string_views(r@).contains(x) <==> lowest(
            g,
            a,
            b,
            x,
        ) by {
            assert(above_a@.contains(x) == order.to_set().contains(x));
            assert(order.to_set().contains(x) == order.contains(x));
            if common(g, a, b, x) && passed@.contains(x) {
                let k = choose|k: int|
                    0 <= k < n && above_b@.contains(#[trigger] order[k]) && leads(
                        up(g),
                        order[k],
                        x,
                    );
                assert(order.contains(order[k]));
                assert(above_a@.contains(order[k]));
                assert(common(g, a, b, order[k]));
            }
            if common(g, a, b, x) && !passed@.contains(x) {
                assert forall|y: Seq<char>| #[trigger] common(g, a, b, y) implies !leads(
                    up(g),
                    y,
                    x,
                ) by {
                    assert(above_a@.contains(y));
                    assert(order.to_set().contains(y));
                    let k = choose|k: int| 0 <= k < order.len() && order[k] == y;
                    assert(above_b@.contains(order[k]));
                }
            }
        }
    }
    r
}

/// Finds a lowest common ancestor of two events, `None` if they have no common
/// ancestor.
///
/// An event is its own lowest common ancestor. Where several are lowest, it is
/// the one that walks up from both events meet at first, if that is one of
/// them. Should hashes form a cycle, so that none is lowest, it is where the
/// walks meet.
pub fn find_lca(dag: &EventDag, tip_a: &str, tip_b: &str) -> (r: Result<Option<String>, LcaError>)
    ensures
        match r {
            Err(LcaError::EventNotFound(h)) => absent(dag@, tip_a@, tip_b@) == Some(h@),
            Ok(None) => absent(dag@, tip_a@, tip_b@) is None && forall|x: Seq<char>|
                !#[trigger] common(dag@, tip_a@, tip_b@, x),
            Ok(Some(x)) => absent(dag@, tip_a@, tip_b@) is None && common(
                dag@,
                tip_a@,
                tip_b@,
                x@,
            ) && found(dag@, tip_a@, tip_b@, x@),
        },
{
    if !dag.contains(tip_a) {
        return Err(LcaError::EventNotFound(tip_a.to_owned()));
    }
    if !dag.contains(tip_b) {
        return Err(LcaError::EventNotFound(tip_b.to_owned()));
    }
    if str_eq(tip_a, tip_b) {
        return Ok(Some(tip_a.to_owned()));
    }
    let met = match meeting(dag, tip_a, tip_b) {
        Some(x) => x,
        None => return Ok(None),
    };
    let list = lowest_list(dag, tip_a, tip_b);
    if list.len() == 0 || holds(&list, met.as_str()) {
        proof {
            if list.len() == 0 {
                assert forall|y: Seq<char>| !#[trigger] lowest(dag@, tip_a@, tip_b@, y) by {
                    assert(!string_views(list@).contains(y));
                }
            }
        }
        return Ok(Some(met));
    }
    proof {
        let all = string_views(list@);
        assert(all.contains(all[0]));
        assert(!all.contains(met@)) by {
            assert(!lowest(dag@, tip_a@, tip_b@, met@));
        }
        assert forall|y: Seq<char>| #[trigger] lowest(dag@, tip_a@, tip_b@, y) implies all[0] == y
            || lex_lt(all[0], y) by {
            assert(all.contains(y));
            let k = choose|k: int| 0 <= k < all.len() && all[k] == y;
            if k > 0 {
                assert(lex_lt(all[0], all[k]));
            }
        }
        assert(first_lowest(dag@, tip_a@, tip_b@, all[0]));
    }
    Ok(Some(list[0].clone()))
}

/// Finds all lowest common ancestors of two events, in the order of their
/// hashes. There are several where branches were merged crosswise, and none
/// where the events have no common ancestor.
pub fn find_all_lcas(dag: &EventDag, tip_a: &str, tip_b: &str) -> (r: Result<Vec<String>, LcaError>)
    ensures
        match r {
            Err(LcaError::EventNotFound(h)) => absent(dag@, tip_a@, tip_b@) == Some(h@),
            Ok(list) => {
                &&& absent(dag@, tip_a@, tip_b@) is None
                &&& ascending(string_views(list@))
                &&& forall|x: Seq<char>| #[trigger]
                    string_views(list@).contains(x) <==> if tip_a@ == tip_b@ {
                        x == tip_a@
                    } else {
                        lowest(dag@, tip_a@, tip_b@, x)
                    }
            },
        },
{
    if !dag.contains(tip_a) {
        return Err(LcaError::EventNotFound(tip_a.to_owned()));
    }
    if !dag.contains(tip_b) {
        return Err(LcaError::EventNotFound(tip_b.to_owned()));
    }
    if str_eq(tip_a, tip_b) {
        let mut list: Vec<String> = Vec::new();
        list.push(tip_a.to_owned());
        assert(string_views(list@) =~= seq![tip_a@]);
        assert(string_views(list@)[0] == tip_a@);
        return Ok(list);
    }
    Ok(lowest_list(dag, tip_a, tip_b))
}

/// Where one event comes before the other, and hashes form no cycle, it is the
/// only lowest common ancestor. That there is no cycle is said by a height that
/// every event has above its parents.
pub proof fn earlier_event_is_the_lca(
    g: Graph,
    a: Seq<char>,
    b: Seq<char>,
    height: spec_fn(Seq<char>) -> nat,
    x: Seq<char>,
)
    requires
        leads(up(g), b, a),
        forall|c: Seq<char>, p: Seq<char>| #[trigger] up(g)(c, p) ==> height(p) < height(c),
    ensures
        lowest(g, a, b, x) <==> x == a,
        lowest(g, b, a, x) <==> x == a,
{
    assert(common(g, a, b, a));
    assert forall|y: Seq<char>| #[trigger] common(g, a, b, y) implies !leads(up(g), y, a) by {
        if leads(up(g), y, a) {
            lemma_height(g, y, a, height);
            if y != a {
                lemma_height(g, a, y, height);
            }
        }
    }
    assert(lowest(g, a, b, a));
    assert forall|y: Seq<char>| common(g, b, a, y) == #[trigger] common(g, a, b, y) by {}
    if lowest(g, a, b, x) && x != a {
        assert(leads(up(g), a, x));
    }
    if lowest(g, b, a, x) {
        assert(common(g, a, b, x));
        assert forall|y: Seq<char>| #[trigger] common(g, a, b, y) implies !leads(up(g), y, x) by {
            assert(common(g, b, a, y));
        }
    }
    if x == a {
        assert forall|y: Seq<char>| #[trigger] common(g, b, a, y) implies !leads(up(g), y, x) by {
            assert(common(g, a, b, y));
        }
    }
}

/// What leads up leads to a lesser height.
proof fn lemma_height(
    g: Graph,
    x: Seq<char>,
    y: Seq<char>,
    height: spec_fn(Seq<char>) -> nat,
)
    requires
        leads(up(g), x, y),
        forall|c: Seq<char>, p: Seq<char>| #[trigger] up(g)(c, p) ==> height(p) < height(c),
    ensures
        height(y) < height(x),
{
    let path = choose|path: Seq<Seq<char>>| #[trigger]
        crate::dag::graph::chain(up(g), path) && path[0] == x && path.last() == y;
    lemma_path_height(g, path, height, path.len() - 1);
}

proof fn lemma_path_height(
    g: Graph,
    path: Seq<Seq<char>>,
    height: spec_fn(Seq<char>) -> nat,
    i: int,
)
    requires
        crate::dag::graph::chain(up(g), path),
        forall|c: Seq<char>, p: Seq<char>| #[trigger] up(g)(c, p) ==> height(p) < height(c),
        1 <= i < path.len(),
    ensures
        height(path[i]) < height(path[0]),
    decreases i,
{
    assert(up(g)(path[i - 1], path[i - 1 + 1]));
    if i > 1 {
        lemma_path_height(g, path, height, i - 1);
    }
}

proof fn lemma_some_is_lowest(
    g: Graph,
    a: Seq<char>,
    b: Seq<char>,
    height: spec_fn(Seq<char>) -> nat,
    x: Seq<char>,
)
    requires
        forall|c: Seq<char>, p: Seq<char>| #[trigger] up(g)(c, p) ==> height(p) < height(c),
        common(g, a, b, x),
    ensures
        exists|y: Seq<char>| #[trigger] lowest(g, a, b, y),
    decreases height(a) - height(x),
{
    if !lowest(g, a, b, x) {
        let y = choose|y: Seq<char>| #[trigger] common(g, a, b, y) && leads(up(g), y, x);
        lemma_height(g, y, x, height);
        if y != a {
            lemma_height(g, a, y, height);
        }
        lemma_some_is_lowest(g, a, b, height, y);
    }
}

/// Where hashes form no cycle, the common ancestor that is found is lowest. That
/// there is no cycle is said by a height that every event has above its parents.
pub proof fn found_lca_is_lowest(
    g: Graph,
    a: Seq<char>,
    b: Seq<char>,
    height: spec_fn(Seq<char>) -> nat,
    x: Seq<char>,
)
    requires
        forall|c: Seq<char>, p: Seq<char>| #[trigger] up(g)(c, p) ==> height(p) < height(c),
        common(g, a, b, x),
        found(g, a, b, x),
    ensures
        lowest(g, a, b, x),
{
    lemma_some_is_lowest(g, a, b, height, x);
    if a == b {
        assert forall|y: Seq<char>| #[trigger] common(g, a, b, y) implies !leads(up(g), y, x) by {
            if leads(up(g), y, x) {
                lemma_height(g, y, x, height);
                if y != a {
                    lemma_height(g, a, y, height);
                }
            }
        }
    }
}

/// The lowest common ancestor that is found is one only.
pub proof fn one_lca_is_found(g: Graph, a: Seq<char>, b: Seq<char>, x: Seq<char>, y: Seq<char>)
    requires
        found(g, a, b, x),
        found(g, a, b, y),
    ensures
        x == y,
{
    if a != b {
        let m = choose|m: Seq<char>| #[trigger] meet_at(g, a, b, m);
        assert forall|n: Seq<char>| #[trigger] meet_at(g, a, b, n) implies n == m by {
            lemma_walks_meet_once(g, a, b, n, m);
        }
        if first_lowest(g, a, b, x) && first_lowest(g, a, b, y) && x != y {
            lex_lt_asymmetric(x, y);
        }
    }
}

/// Where only one common ancestor of two events is lowest, it is found whichever
/// event is named first.
pub proof fn only_lca_is_found_either_way(
    g: Graph,
    a: Seq<char>,
    b: Seq<char>,
    only: Seq<char>,
    x: Seq<char>,
    y: Seq<char>,
)
    requires
        lowest(g, a, b, only),
        forall|z: Seq<char>| #[trigger] lowest(g, a, b, z) ==> z == only,
        a != b,
        found(g, a, b, x),
        found(g, b, a, y),
    ensures
        x == only,
        y == only,
{
    lca_is_symmetric(g, a, b, only);
    lca_is_symmetric(g, a, b, y);
}

/// The lowest common ancestors of two events are the same whichever event is
/// named first.
pub proof fn lca_is_symmetric(g: Graph, a: Seq<char>, b: Seq<char>, x: Seq<char>)
    ensures
        lowest(g, a, b, x) == lowest(g, b, a, x),
{
    assert forall|y: Seq<char>| #[trigger] common(g, a, b, y) == common(g, b, a, y) by {}
    if lowest(g, a, b, x) {
        assert forall|y: Seq<char>| #[trigger] common(g, b, a, y) implies !leads(up(g), y, x) by {
            assert(common(g, a, b, y));
        }
    }
    if lowest(g, b, a, x) {
        assert forall|y: Seq<char>| #[trigger] common(g, a, b, y) implies !leads(up(g), y, x) by {
            assert(common(g, b, a, y));
        }
    }
}

/// A lowest common ancestor of two events is each of them or comes before it, and no
/// event that is so too comes after it.
pub proof fn lowest_has_none_below(g: Graph, a: Seq<char>, b: Seq<char>, x: Seq<char>)
    ensures
        lowest(g, a, b, x) <==> {
            &&& x == a || leads(up(g), a, x)
            &&& x == b || leads(up(g), b, x)
            &&& forall|y: Seq<char>|
                (y == a || leads(up(g), a, y)) && (y == b || leads(up(g), b, y)) ==> !(
                #[trigger] leads(up(g), y, x))
        },
{
    if lowest(g, a, b, x) {
        assert forall|y: Seq<char>|
            (y == a || leads(up(g), a, y)) && (y == b || leads(up(g), b, y)) implies !(
        #[trigger] leads(up(g), y, x)) by {
            assert(common(g, a, b, y));
        }
    }
}

/// The first of the lowest common ancestors is the one with the least hash.
pub proof fn first_lowest_has_the_least_hash(g: Graph, a: Seq<char>, b: Seq<char>, x: Seq<char>)
    ensures
        first_lowest(g, a, b, x) <==> lowest(g, a, b, x) && forall|y: Seq<char>| #[trigger]
            lowest(g, a, b, y) && y != x ==> lex_lt(x, y),
{
}

}
