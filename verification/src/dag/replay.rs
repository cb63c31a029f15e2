//! Replaying branches that have parted.
//!
//! Two branches part at a common ancestor. A replay collects the events that each
//! branch has and the other has not, and those that came on either since the
//! ancestor, and puts them in one order: by time, then agent, then hash.

use crate::dag::graph::{closed_set_holds_reached, leads, leads_further, up, EventDag, Graph};
use crate::dag::lca::{
    absent, at_and_above, at_or_above, common, find_lca, found, LcaError,
};
use crate::event::{event_views, Event, EventView};
use crate::text::order::{
    lex_lt, lex_lt_asymmetric, lex_lt_irreflexive, lex_lt_total, lex_lt_transitive, str_rank, Rank,
};
use crate::text::set::{to_set_of_push, StringSet};
use crate::text::slice::str_eq;
use vstd::prelude::*;

verus! {

/// Why branches are not replayed.
#[derive(Debug, Clone, PartialEq, Eq)]
pub enum ReplayError {
    /// An event is not in the graph.
    Lca(LcaError),
    /// The two events have no common ancestor.
    NoDivergence,
}

impl ReplayError {
    /// Explains the error.
    pub fn to_string(&self) -> (r: String)
        ensures
            r@ == match *self {
                ReplayError::Lca(LcaError::EventNotFound(h)) => "event not found in DAG: "@ + h@,
                ReplayError::NoDivergence =>
                    "tips have no common ancestor; cannot compute divergent replay"@,
            },
    {
        match self {
            ReplayError::Lca(e) => e.to_string(),
            ReplayError::NoDivergence => {
                "tips have no common ancestor; cannot compute divergent replay".to_owned()
            },
        }
    }
}

/// The events of two branches since they parted.
#[derive(Debug, Clone)]
pub struct DivergentReplay {
    /// The hash of the event where the branches parted.
    pub lca: String,
    /// Events on the first branch only: at or above its tip, and not at or above
    /// the other.
    pub branch_a: Vec<Event>,
    /// Events on the second branch only: at or above its tip, and not at or above
    /// the other.
    pub branch_b: Vec<Event>,
    /// The events of both branches since they parted, each once.
    pub merged: Vec<Event>,
}

/// The order of a replay: by time, then agent, then hash.
pub open spec fn replayed_before(a: EventView, b: EventView) -> bool {
    a.wall_ts_us < b.wall_ts_us || (a.wall_ts_us == b.wall_ts_us && (lex_lt(a.agent, b.agent) || (
    a.agent == b.agent && lex_lt(a.event_hash, b.event_hash))))
}

/// Whether events are in the order of a replay.
pub open spec fn in_replay_order(events: Seq<EventView>) -> bool {
    forall|i: int, j: int|
        0 <= i < j < events.len() ==> replayed_before(#[trigger] events[i], #[trigger] events[j])
}

/// An event and what comes before it, as far as it is in the graph.
pub open spec fn past(g: Graph, tip: Seq<char>) -> Set<Seq<char>> {
    Set::new(|x: Seq<char>| g.contains_key(x) && at_or_above(g, tip, x))
}

/// The past of an event but for that of another.
pub open spec fn since(g: Graph, stop: Seq<char>, tip: Seq<char>) -> Set<Seq<char>> {
    past(g, tip).difference(past(g, stop))
}

/// What comes before an earlier event comes before the later one too.
proof fn lemma_past_of_earlier(g: Graph, tip: Seq<char>, earlier: Seq<char>)
    requires
        at_or_above(g, tip, earlier),
    ensures
        past(g, earlier).subset_of(past(g, tip)),
{
    let above = Set::new(|x: Seq<char>| leads(up(g), tip, x));
    assert forall|y: Seq<char>| #[trigger] up(g)(earlier, y) implies above.contains(y) by {
        leads_further(up(g), tip, earlier, y);
    }
    assert forall|y: Seq<char>, z: Seq<char>|
        above.contains(y) && #[trigger] up(g)(y, z) implies above.contains(z) by {
        leads_further(up(g), tip, y, z);
    }
    closed_set_holds_reached(up(g), earlier, above);
    assert forall|x: Seq<char>| #[trigger] past(g, earlier).contains(x) implies past(
        g,
        tip,
    ).contains(x) by {
        if x != earlier {
            assert(above.contains(x));
        }
    }
}

/// Whether a list holds exactly the events with some hashes, in the order of a
/// replay.
pub open spec fn lists(g: Graph, events: Seq<EventView>, hashes: Set<Seq<char>>) -> bool {
    &&& in_replay_order(events)
    &&& forall|i: int|
        0 <= i < events.len() ==> hashes.contains((#[trigger] events[i]).event_hash) && events[i]
            == g[events[i].event_hash]
    &&& forall|h: Seq<char>| #[trigger]
        hashes.contains(h) ==> exists|i: int| 0 <= i < events.len() && (#[trigger] events[i]).event_hash == h
}

/// The hashes of those events that are about an item.
pub open spec fn about(g: Graph, hashes: Set<Seq<char>>, item: Seq<char>) -> Set<Seq<char>> {
    Set::new(|h: Seq<char>| hashes.contains(h) && g[h].item_id == item)
}

proof fn lemma_before_transitive(a: EventView, b: EventView, c: EventView)
    requires
        replayed_before(a, b),
        replayed_before(b, c),
    ensures
        replayed_before(a, c),
{
    if lex_lt(a.agent, b.agent) && lex_lt(b.agent, c.agent) {
        lex_lt_transitive(a.agent, b.agent, c.agent);
    }
    if lex_lt(a.event_hash, b.event_hash) && lex_lt(b.event_hash, c.event_hash) {
        lex_lt_transitive(a.event_hash, b.event_hash, c.event_hash);
    }
}

fn is_before(a: &Event, b: &Event) -> (r: bool)
    ensures
        r == replayed_before(a@, b@),
        !r ==> replayed_before(b@, a@) || a@.event_hash == b@.event_hash,
{
    proof {
        lex_lt_total(a@.agent, b@.agent);
        lex_lt_asymmetric(a@.agent, b@.agent);
        lex_lt_asymmetric(b@.agent, a@.agent);
        lex_lt_irreflexive(a@.agent);
        lex_lt_total(a@.event_hash, b@.event_hash);
        lex_lt_asymmetric(b@.event_hash, a@.event_hash);
        lex_lt_irreflexive(a@.event_hash);
    }
    if a.wall_ts_us != b.wall_ts_us {
        return a.wall_ts_us < b.wall_ts_us;
    }
    match str_rank(a.agent.as_str(), b.agent.as_str()) {
        Rank::Less => true,
        Rank::Greater => false,
        Rank::Equal => match str_rank(a.event_hash.as_str(), b.event_hash.as_str()) {
            Rank::Less => true,
            _ => false,
        },
    }
}

/// Puts an event in its place in the order of a replay.
fn place(list: &mut Vec<Event>, event: Event)
    requires
        in_replay_order(event_views(old(list)@)),
        forall|i: int|
            0 <= i < old(list)@.len() ==> (#[trigger] old(list)@[i])@.event_hash
                != event@.event_hash,
    ensures
        in_replay_order(event_views(final(list)@)),
        exists|at: int|
            0 <= at <= old(list)@.len() && event_views(final(list)@) == #[trigger] event_views(
                old(list)@,
            ).insert(at, event@),
{
    let ghost was = event_views(list@);
    let ghost e = event@;
    let mut i: usize = 0;
    while i < list.len()
        invariant_except_break
            i <= list.len(),
            list@ == old(list)@,
            was == event_views(list@),
            e == event@,
            in_replay_order(was),
            forall|k: int| 0 <= k < list@.len() ==> (#[trigger] list@[k])@.event_hash != e.event_hash,
            forall|k: int| 0 <= k < i ==> replayed_before(#[trigger] was[k], e),
        ensures
            i <= list.len(),
            list@ == old(list)@,
            forall|k: int| 0 <= k < i ==> replayed_before(#[trigger] was[k], e),
            forall|k: int| i <= k < was.len() ==> replayed_before(e, #[trigger] was[k]),
        decreases list.len() - i,
    {
        assert(list@[i as int]@ == was[i as int]);
        if is_before(&list[i], &event) {
            i += 1;
        } else {
            proof {
                assert forall|k: int| i <= k < was.len() implies replayed_before(
                    e,
                    #[trigger] was[k],
                ) by {
                    if k > i {
                        lemma_before_transitive(e, was[i as int], was[k]);
                    }
                }
            }
            break;
        }
    }
    list.insert(i, event);
    proof {
        let now = event_views(list@);
        assert(now =~= was.insert(i as int, e));
        assert forall|a: int, b: int| 0 <= a < b < now.len() implies replayed_before(
            #[trigger] now[a],
            #[trigger] now[b],
        ) by {
            let a0 = if a < i { a } else { a - 1 };
            let b0 = if b < i { b } else { b - 1 };
            if a != i && b != i {
                assert(now[a] == was[a0] && now[b] == was[b0]);
            } else if a == i {
                assert(now[b] == was[b0]);
            } else {
                assert(now[a] == was[a0]);
            }
        }
    }
}

proof fn lemma_listed_more(
    g: Graph,
    events: Seq<EventView>,
    hashes: Set<Seq<char>>,
    at: int,
    h: Seq<char>,
)
    requires
        lists(g, events, hashes),
        0 <= at <= events.len(),
        in_replay_order(events.insert(at, g[h])),
        g[h].event_hash == h,
    ensures
        lists(g, events.insert(at, g[h]), hashes.insert(h)),
{
    let now = events.insert(at, g[h]);
    assert forall|i: int| 0 <= i < now.len() implies hashes.insert(h).contains(
        (#[trigger] now[i]).event_hash,
    ) && now[i] == g[now[i].event_hash] by {
        if i != at {
            let i0 = if i < at { i } else { i - 1 };
            assert(now[i] == events[i0]);
        }
    }
    assert forall|x: Seq<char>| #[trigger] hashes.insert(h).contains(x) implies exists|i: int|
        0 <= i < now.len() && (#[trigger] now[i]).event_hash == x by {
        if x == h {
            assert(now[at].event_hash == x);
        } else {
            let k = choose|k: int| 0 <= k < events.len() && (#[trigger] events[k]).event_hash == x;
            let k1 = if k < at { k } else { k + 1 };
            assert(now[k1] == events[k]);
        }
    }
}

/// Collects an event and what comes before it, but for another event and what
/// comes before that.
fn events_since(dag: &EventDag, stop: &str, tip: &str) -> (r: Vec<Event>)
    ensures
        lists(dag@, event_views(r@), since(dag@, stop@, tip@)),
{
    let ghost g = dag@;
    let above = at_and_above(dag, tip);
    let passed = at_and_above(dag, stop);
    let n = above.len();
    let ghost order = above.order();
    let mut r: Vec<Event> = Vec::new();
    let ghost mut collected: Set<Seq<char>> = Set::empty();
    let mut i: usize = 0;
    proof {
        assert(event_views(r@) =~= Seq::empty());
        assert(lists(g, event_views(r@), collected));
    }
    while i < n
        invariant
            i <= n,
            n == order.len(),
            order == above.order(),
            order.no_duplicates(),
            g == dag@,
            forall|x: Seq<char>|
                #![trigger collected.contains(x)]
                collected.contains(x) <==> order.take(i as int).contains(x) && !passed@.contains(x)
                    && g.contains_key(x),
            lists(g, event_views(r@), collected),
        decreases n - i,
    {
        let hash = above.get(i);
        let ghost h = hash@;
        let ghost part = order.take(i as int);
        let ghost before = collected;
        proof {
            assert(order.take(i + 1) =~= part.push(h));
            to_set_of_push(part, h);
            assert(!part.contains(h));
        }
        if !passed.contains(hash.as_str()) {
            if let Some(node) = dag.get(hash.as_str()) {
                let ghost was = event_views(r@);
                proof {
                    assert forall|k: int| 0 <= k < r@.len() implies (#[trigger] r@[k])@.event_hash
                        != h by {
                        assert(was[k] == r@[k]@);
                        assert(collected.contains(was[k].event_hash));
                    }
                }
                place(&mut r, node.event.clone());
                proof {
                    let at = choose|at: int|
                        0 <= at <= was.len() && event_views(r@) == #[trigger] was.insert(at, g[h]);
                    lemma_listed_more(g, was, collected, at, h);
                    collected = collected.insert(h);
                }
            }
        }
        proof {
            let next = order.take(i + 1);
            assert forall|x: Seq<char>|
                #![trigger collected.contains(x)]
                collected.contains(x) <==> next.contains(x) && !passed@.contains(x)
                    && g.contains_key(x) by {
                assert(next.to_set().contains(x) == next.contains(x));
                assert(part.to_set().contains(x) == part.contains(x));
                assert(before.contains(x) <==> part.contains(x) && !passed@.contains(x)
                    && g.contains_key(x));
            }
        }
        i += 1;
    }
    proof {
        assert(order.take(i as int) =~= order);
        assert forall|x: Seq<char>| #[trigger] collected.contains(x) == since(
            g,
            stop@,
            tip@,
        ).contains(x) by {
            assert(above@.contains(x) == order.to_set().contains(x));
            assert(order.to_set().contains(x) == order.contains(x));
        }
        assert(collected =~= since(g, stop@, tip@));
    }
    r
}

/// The hashes of events.
fn hash_set(events: &Vec<Event>) -> (r: StringSet)
    ensures
        forall|h: Seq<char>|
            #![trigger r@.contains(h)]
            r@.contains(h) <==> exists|i: int|
                0 <= i < events@.len() && (#[trigger] events@[i])@.event_hash == h,
{
    let mut r = StringSet::new();
    let mut i: usize = 0;
    while i < events.len()
        invariant
            i <= events.len(),
            forall|h: Seq<char>|
                #![trigger r@.contains(h)]
                r@.contains(h) <==> exists|k: int|
                    0 <= k < i && (#[trigger] events@[k])@.event_hash == h,
        decreases events.len() - i,
    {
        let ghost before = r@;
        r.insert(events[i].event_hash.clone());
        proof {
            assert forall|h: Seq<char>|
                #![trigger r@.contains(h)]
                r@.contains(h) <==> exists|k: int|
                    0 <= k < i + 1 && (#[trigger] events@[k])@.event_hash == h by {
                if before.contains(h) {
                    let k = choose|k: int| 0 <= k < i && (#[trigger] events@[k])@.event_hash == h;
                    assert(events@[k]@.event_hash == h);
                }
                if events@[i as int]@.event_hash == h {
                    assert(r@.contains(h));
                }
            }
        }
        i += 1;
    }
    r
}

proof fn lemma_hash_set(g: Graph, events: Seq<Event>, hashes: Set<Seq<char>>, set: Set<Seq<char>>)
    requires
        lists(g, event_views(events), hashes),
        forall|h: Seq<char>|
            #![trigger set.contains(h)]
            set.contains(h) <==> exists|i: int|
                0 <= i < events.len() && (#[trigger] events[i])@.event_hash == h,
    ensures
        set == hashes,
{
    let v = event_views(events);
    assert forall|h: Seq<char>| #[trigger] set.contains(h) == hashes.contains(h) by {
        if set.contains(h) {
            let i = choose|i: int| 0 <= i < events.len() && (#[trigger] events[i])@.event_hash == h;
            assert(v[i] == events[i]@);
        }
        if hashes.contains(h) {
            let i = choose|i: int| 0 <= i < v.len() && (#[trigger] v[i]).event_hash == h;
            assert(events[i]@ == v[i]);
        }
    }
    assert(set =~= hashes);
}

/// Keeps the events whose hash is not in a set, in their order.
fn without(
    events: &Vec<Event>,
    other: &StringSet,
    Ghost(g): Ghost<Graph>,
    Ghost(hashes): Ghost<Set<Seq<char>>>,
) -> (r: Vec<Event>)
    requires
        lists(g, event_views(events@), hashes),
    ensures
        lists(g, event_views(r@), hashes.difference(other@)),
{
    let mut r: Vec<Event> = Vec::new();
    let ghost all = event_views(events@);
    let mut i: usize = 0;
    proof {
        assert(event_views(r@) =~= Seq::empty());
        lemma_picked_none(all, |e: EventView| !other@.contains(e.event_hash));
    }
    while i < events.len()
        invariant
            i <= events.len(),
            all == event_views(events@),
            lists(g, all, hashes),
            picked(all, event_views(r@), i as int, |e: EventView| !other@.contains(e.event_hash)),
        decreases events.len() - i,
    {
        let keep = !other.contains(events[i].event_hash.as_str());
        let ghost was = event_views(r@);
        let ghost p = |e: EventView| !other@.contains(e.event_hash);
        assert(all[i as int] == events@[i as int]@);
        if keep {
            r.push(events[i].clone());
            assert(event_views(r@) =~= was.push(all[i as int]));
        }
        proof {
            lemma_picked_more(all, was, i as int, p);
        }
        i += 1;
    }
    proof {
        let p = |e: EventView| !other@.contains(e.event_hash);
        lemma_picked_lists(g, all, event_views(r@), hashes, p);
        assert(Set::new(|h: Seq<char>| hashes.contains(h) && p(g[h])) =~= hashes.difference(
            other@,
        )) by {
            assert forall|h: Seq<char>| hashes.contains(h) implies g[h].event_hash == h by {
                let k = choose|k: int| 0 <= k < all.len() && (#[trigger] all[k]).event_hash == h;
                assert(all[k] == g[h]);
            }
        }
    }
    r
}

/// Whether a list holds, in their order, those of the first `n` events that a
/// test accepts.
spec fn picked(
    all: Seq<EventView>,
    chosen: Seq<EventView>,
    n: int,
    accepts: spec_fn(EventView) -> bool,
) -> bool {
    chosen == all.take(n).filter(accepts)
}

proof fn lemma_picked_none(all: Seq<EventView>, accepts: spec_fn(EventView) -> bool)
    ensures
        picked(all, Seq::empty(), 0, accepts),
{
    reveal(Seq::filter);
    assert(all.take(0) =~= Seq::empty());
    assert(all.take(0).filter(accepts) =~= Seq::empty());
}

proof fn lemma_picked_more(
    all: Seq<EventView>,
    chosen: Seq<EventView>,
    n: int,
    accepts: spec_fn(EventView) -> bool,
)
    requires
        0 <= n < all.len(),
        picked(all, chosen, n, accepts),
    ensures
        picked(
            all,
            if accepts(all[n]) {
                chosen.push(all[n])
            } else {
                chosen
            },
            n + 1,
            accepts,
        ),
{
    reveal(Seq::filter);
    assert(all.take(n + 1).drop_last() =~= all.take(n));
    assert(all.take(n + 1).last() == all[n]);
}

proof fn lemma_filter_keeps_order(all: Seq<EventView>, accepts: spec_fn(EventView) -> bool)
    requires
        in_replay_order(all),
    ensures
        in_replay_order(all.filter(accepts)),
        forall|i: int|
            0 <= i < all.filter(accepts).len() ==> all.contains(#[trigger] all.filter(accepts)[i])
                && accepts(all.filter(accepts)[i]),
        forall|i: int|
            0 <= i < all.len() && accepts(#[trigger] all[i]) ==> all.filter(accepts).contains(all[i]),
    decreases all.len(),
{
    reveal(Seq::filter);
    let now = all.filter(accepts);
    if all.len() > 0 {
        let rest = all.drop_last();
        assert forall|i: int, j: int| 0 <= i < j < rest.len() implies replayed_before(
            #[trigger] rest[i],
            #[trigger] rest[j],
        ) by {
            assert(rest[i] == all[i] && rest[j] == all[j]);
        }
        lemma_filter_keeps_order(rest, accepts);
        let kept = rest.filter(accepts);
        assert forall|i: int| 0 <= i < now.len() implies all.contains(#[trigger] now[i]) && accepts(
            now[i],
        ) by {
            if i < kept.len() {
                assert(now[i] == kept[i]);
                let k = choose|k: int| 0 <= k < rest.len() && rest[k] == kept[i];
                assert(all[k] == kept[i]);
            } else {
                assert(now[i] == all.last());
            }
        }
        assert forall|i: int, j: int| 0 <= i < j < now.len() implies replayed_before(
            #[trigger] now[i],
            #[trigger] now[j],
        ) by {
            if j < kept.len() {
                assert(now[i] == kept[i] && now[j] == kept[j]);
            } else {
                assert(now[i] == kept[i] && now[j] == all.last());
                let k = choose|k: int| 0 <= k < rest.len() && rest[k] == kept[i];
                assert(all[k] == kept[i]);
            }
        }
        assert forall|i: int| 0 <= i < all.len() && accepts(#[trigger] all[i]) implies now.contains(
            all[i],
        ) by {
            if i < rest.len() {
                assert(rest[i] == all[i]);
                assert(kept.contains(rest[i]));
                let k = choose|k: int| 0 <= k < kept.len() && kept[k] == all[i];
                assert(now[k] == all[i]);
            } else {
                assert(now[now.len() - 1] == all[i]);
            }
        }
    }
}

proof fn lemma_picked_lists(
    g: Graph,
    all: Seq<EventView>,
    chosen: Seq<EventView>,
    hashes: Set<Seq<char>>,
    accepts: spec_fn(EventView) -> bool,
)
    requires
        lists(g, all, hashes),
        picked(all, chosen, all.len() as int, accepts),
    ensures
        lists(g, chosen, Set::new(|h: Seq<char>| hashes.contains(h) && accepts(g[h]))),
{
    assert(all.take(all.len() as int) =~= all);
    lemma_filter_keeps_order(all, accepts);
    let wanted = Set::new(|h: Seq<char>| hashes.contains(h) && accepts(g[h]));
    assert forall|i: int| 0 <= i < chosen.len() implies wanted.contains(
        (#[trigger] chosen[i]).event_hash,
    ) && chosen[i] == g[chosen[i].event_hash] by {
        assert(all.contains(chosen[i]));
        let k = choose|k: int| 0 <= k < all.len() && all[k] == chosen[i];
        assert(hashes.contains(all[k].event_hash));
    }
    assert forall|h: Seq<char>| #[trigger] wanted.contains(h) implies exists|i: int|
        0 <= i < chosen.len() && (#[trigger] chosen[i]).event_hash == h by {
        let k = choose|k: int| 0 <= k < all.len() && (#[trigger] all[k]).event_hash == h;
        assert(all[k] == g[h]);
        assert(chosen.contains(all[k]));
        let i = choose|i: int| 0 <= i < chosen.len() && chosen[i] == all[k];
        assert(chosen[i].event_hash == h);
    }
}

/// Joins two lists, each event once.
fn merge_lists(
    a: &Vec<Event>,
    b: &Vec<Event>,
    in_a: &StringSet,
    Ghost(g): Ghost<Graph>,
    Ghost(hashes_a): Ghost<Set<Seq<char>>>,
    Ghost(hashes_b): Ghost<Set<Seq<char>>>,
) -> (r: Vec<Event>)
    requires
        lists(g, event_views(a@), hashes_a),
        lists(g, event_views(b@), hashes_b),
        in_a@ == hashes_a,
    ensures
        lists(g, event_views(r@), hashes_a.union(hashes_b)),
{
    let mut r: Vec<Event> = Vec::new();
    let mut i: usize = 0;
    let ghost all_a = event_views(a@);
    let ghost all_b = event_views(b@);
    while i < a.len()
        invariant
            i <= a.len(),
            all_a == event_views(a@),
            event_views(r@) =~= all_a.take(i as int),
        decreases a.len() - i,
    {
        let ghost was = event_views(r@);
        r.push(a[i].clone());
        assert(event_views(r@) =~= was.push(all_a[i as int]));
        assert(all_a.take(i + 1) =~= all_a.take(i as int).push(all_a[i as int]));
        i += 1;
    }
    assert(all_a.take(i as int) =~= all_a);
    let mut j: usize = 0;
    let ghost mut found = hashes_a;
    while j < b.len()
        invariant
            j <= b.len(),
            all_b == event_views(b@),
            lists(g, all_b, hashes_b),
            in_a@ == hashes_a,
            lists(g, event_views(r@), found),
            forall|h: Seq<char>|
                #![trigger found.contains(h)]
                found.contains(h) <==> hashes_a.contains(h) || exists|k: int|
                    0 <= k < j && (#[trigger] all_b[k]).event_hash == h,
        decreases b.len() - j,
    {
        let ghost e = all_b[j as int];
        let ghost h = e.event_hash;
        let ghost was = event_views(r@);
        let ghost was_found = found;
        assert(b@[j as int]@ == e);
        if !in_a.contains(b[j].event_hash.as_str()) {
            proof {
                assert(!found.contains(h)) by {
                    if found.contains(h) {
                        let k = choose|k: int| 0 <= k < j && (#[trigger] all_b[k]).event_hash == h;
                        assert(all_b[k] == g[h] && e == g[h]);
                        assert(replayed_before(all_b[k], all_b[j as int]));
                        lex_lt_irreflexive(e.agent);
                        lex_lt_irreflexive(e.event_hash);
                    }
                }
                assert forall|i: int| 0 <= i < r@.len() implies (#[trigger] r@[i])@.event_hash
                    != h by {
                    assert(was[i] == r@[i]@);
                    assert(found.contains(was[i].event_hash));
                }
            }
            place(&mut r, b[j].clone());
            proof {
                let at = choose|at: int|
                    0 <= at <= was.len() && event_views(r@) == #[trigger] was.insert(at, e);
                lemma_listed_more(g, was, found, at, h);
                found = found.insert(h);
            }
        }
        proof {
            assert forall|x: Seq<char>|
                #![trigger found.contains(x)]
                found.contains(x) <==> hashes_a.contains(x) || exists|k: int|
                    0 <= k < j + 1 && (#[trigger] all_b[k]).event_hash == x by {
                if was_found.contains(x) && !hashes_a.contains(x) {
                    let k = choose|k: int| 0 <= k < j && (#[trigger] all_b[k]).event_hash == x;
                    assert(all_b[k].event_hash == x);
                }
                if x == h {
                    assert(all_b[j as int].event_hash == x);
                }
            }
        }
        j += 1;
    }
    proof {
        assert forall|h: Seq<char>| #[trigger] found.contains(h) == hashes_a.union(
            hashes_b,
        ).contains(h) by {
            if hashes_b.contains(h) {
                let k = choose|k: int| 0 <= k < all_b.len() && (#[trigger] all_b[k]).event_hash == h;
                assert(all_b[k].event_hash == h);
            }
        }
        assert(found =~= hashes_a.union(hashes_b));
    }
    r
}

/// Whether a replay holds the events of two branches: of each branch, what is not
/// in the past of the other tip, and of both together, what is not in the past
/// of the event where they parted.
pub open spec fn replays(
    g: Graph,
    a: Seq<char>,
    b: Seq<char>,
    lca: Seq<char>,
    branch_a: Seq<EventView>,
    branch_b: Seq<EventView>,
    merged: Seq<EventView>,
) -> bool {
    &&& lists(g, branch_a, since(g, b, a))
    &&& lists(g, branch_b, since(g, a, b))
    &&& lists(g, merged, since(g, lca, a).union(since(g, lca, b)))
}

/// Collects the events of two branches since they parted.
///
/// The branches are those of two events. Where one comes before the other, its
/// branch is empty; where they are the same, both are. It is an error if an
/// event is not in the graph or if the two have no common ancestor.
pub fn replay_divergent(dag: &EventDag, tip_a: &str, tip_b: &str) -> (r: Result<
    DivergentReplay,
    ReplayError,
>)
    ensures
        match r {
            Ok(replay) => {
                &&& absent(dag@, tip_a@, tip_b@) is None
                &&& found(dag@, tip_a@, tip_b@, replay.lca@)
                &&& replays(
                    dag@,
                    tip_a@,
                    tip_b@,
                    replay.lca@,
                    event_views(replay.branch_a@),
                    event_views(replay.branch_b@),
                    event_views(replay.merged@),
                )
            },
            Err(ReplayError::Lca(LcaError::EventNotFound(h))) => absent(dag@, tip_a@, tip_b@)
                == Some(h@),
            Err(ReplayError::NoDivergence) => absent(dag@, tip_a@, tip_b@) is None && forall|
                x: Seq<char>,
            |
                !#[trigger] common(dag@, tip_a@, tip_b@, x),
        },
{
    let lca = match find_lca(dag, tip_a, tip_b) {
        Ok(Some(lca)) => lca,
        Ok(None) => return Err(ReplayError::NoDivergence),
        Err(e) => return Err(ReplayError::Lca(e)),
    };
    let ghost g = dag@;
    let ghost set_a = since(g, lca@, tip_a@);
    let ghost set_b = since(g, lca@, tip_b@);
    let events_a = events_since(dag, lca.as_str(), tip_a);
    let events_b = events_since(dag, lca.as_str(), tip_b);
    let hashes_a = hash_set(&events_a);
    let hashes_b = hash_set(&events_b);
    proof {
        lemma_hash_set(g, events_a@, set_a, hashes_a@);
        lemma_hash_set(g, events_b@, set_b, hashes_b@);
        lemma_past_of_earlier(g, tip_a@, lca@);
        lemma_past_of_earlier(g, tip_b@, lca@);
        assert(set_a.difference(set_b) =~= since(g, tip_b@, tip_a@));
        assert(set_b.difference(set_a) =~= since(g, tip_a@, tip_b@));
    }
    let branch_a = without(&events_a, &hashes_b, Ghost(g), Ghost(set_a));
    let branch_b = without(&events_b, &hashes_a, Ghost(g), Ghost(set_b));
    let merged = merge_lists(
        &events_a,
        &events_b,
        &hashes_a,
        Ghost(g),
        Ghost(set_a),
        Ghost(set_b),
    );
    Ok(DivergentReplay { lca, branch_a, branch_b, merged })
}

/// Keeps the events about an item, in their order.
fn only_about(
    events: &Vec<Event>,
    item_id: &str,
    Ghost(g): Ghost<Graph>,
    Ghost(hashes): Ghost<Set<Seq<char>>>,
) -> (r: Vec<Event>)
    requires
        lists(g, event_views(events@), hashes),
    ensures
        lists(g, event_views(r@), about(g, hashes, item_id@)),
{
    let mut r: Vec<Event> = Vec::new();
    let ghost all = event_views(events@);
    let mut i: usize = 0;
    proof {
        assert(event_views(r@) =~= Seq::empty());
        lemma_picked_none(all, |e: EventView| e.item_id == item_id@);
    }
    while i < events.len()
        invariant
            i <= events.len(),
            all == event_views(events@),
            lists(g, all, hashes),
            picked(all, event_views(r@), i as int, |e: EventView| e.item_id == item_id@),
        decreases events.len() - i,
    {
        let ghost was = event_views(r@);
        assert(all[i as int] == events@[i as int]@);
        if str_eq(events[i].item_id.as_str(), item_id) {
            r.push(events[i].clone());
            assert(event_views(r@) =~= was.push(all[i as int]));
        }
        proof {
            lemma_picked_more(all, was, i as int, |e: EventView| e.item_id == item_id@);
        }
        i += 1;
    }
    proof {
        let p = |e: EventView| e.item_id == item_id@;
        lemma_picked_lists(g, all, event_views(r@), hashes, p);
        assert(Set::new(|h: Seq<char>| hashes.contains(h) && p(g[h])) =~= about(
            g,
            hashes,
            item_id@,
        ));
    }
    r
}

/// Collects the events about one item of two branches since they parted. See
/// [`replay_divergent`].
pub fn replay_divergent_for_item(dag: &EventDag, tip_a: &str, tip_b: &str, item_id: &str) -> (r:
    Result<DivergentReplay, ReplayError>)
    ensures
        match r {
            Ok(replay) => {
                let g = dag@;
                &&& absent(g, tip_a@, tip_b@) is None
                &&& found(g, tip_a@, tip_b@, replay.lca@)
                &&& lists(
                    g,
                    event_views(replay.branch_a@),
                    about(g, since(g, tip_b@, tip_a@), item_id@),
                )
                &&& lists(
                    g,
                    event_views(replay.branch_b@),
                    about(g, since(g, tip_a@, tip_b@), item_id@),
                )
                &&& lists(
                    g,
                    event_views(replay.merged@),
                    about(
                        g,
                        since(g, replay.lca@, tip_a@).union(since(g, replay.lca@, tip_b@)),
                        item_id@,
                    ),
                )
            },
            Err(ReplayError::Lca(LcaError::EventNotFound(h))) => absent(dag@, tip_a@, tip_b@)
                == Some(h@),
            Err(ReplayError::NoDivergence) => absent(dag@, tip_a@, tip_b@) is None && forall|
                x: Seq<char>,
            |
                !#[trigger] common(dag@, tip_a@, tip_b@, x),
        },
{
    let replay = match replay_divergent(dag, tip_a, tip_b) {
        Ok(replay) => replay,
        Err(e) => return Err(e),
    };
    let ghost g = dag@;
    let branch_a = only_about(
        &replay.branch_a,
        item_id,
        Ghost(g),
        Ghost(since(g, tip_b@, tip_a@)),
    );
    let branch_b = only_about(
        &replay.branch_b,
        item_id,
        Ghost(g),
        Ghost(since(g, tip_a@, tip_b@)),
    );
    let merged = only_about(
        &replay.merged,
        item_id,
        Ghost(g),
        Ghost(since(g, replay.lca@, tip_a@).union(since(g, replay.lca@, tip_b@))),
    );
    Ok(DivergentReplay { lca: replay.lca, branch_a, branch_b, merged })
}

/// A set of hashes is listed in one way only, so a replay gives the same events
/// in the same order whichever branch is named first.
pub proof fn listing_is_unique(
    g: Graph,
    a: Seq<EventView>,
    b: Seq<EventView>,
    hashes: Set<Seq<char>>,
)
    requires
        lists(g, a, hashes),
        lists(g, b, hashes),
    ensures
        a == b,
    decreases a.len(),
{
    if a.len() == 0 {
        if b.len() > 0 {
            assert(hashes.contains(b[0].event_hash));
        }
        assert(a =~= b);
    } else {
        let x = a.last();
        assert(hashes.contains(x.event_hash));
        let i = choose|i: int| 0 <= i < b.len() && (#[trigger] b[i]).event_hash == x.event_hash;
        let y = b.last();
        assert(hashes.contains(b[b.len() - 1].event_hash));
        let j = choose|j: int| 0 <= j < a.len() && (#[trigger] a[j]).event_hash == y.event_hash;
        assert(b[i] == x && a[j] == y);
        if i < b.len() - 1 {
            assert(replayed_before(b[i], b[b.len() - 1]));
            if j < a.len() - 1 {
                assert(replayed_before(a[j], a[a.len() - 1]));
                lemma_before_transitive(x, y, x);
            }
            lex_lt_irreflexive(x.agent);
            lex_lt_irreflexive(x.event_hash);
        }
        assert(x == y);
        let rest = Set::new(|h: Seq<char>| hashes.contains(h) && h != x.event_hash);
        lemma_list_without_last(g, a, hashes);
        lemma_list_without_last(g, b, hashes);
        listing_is_unique(g, a.drop_last(), b.drop_last(), rest);
        assert(a =~= a.drop_last().push(x));
        assert(b =~= b.drop_last().push(x));
    }
}

proof fn lemma_list_without_last(g: Graph, a: Seq<EventView>, hashes: Set<Seq<char>>)
    requires
        lists(g, a, hashes),
        a.len() > 0,
    ensures
        lists(
            g,
            a.drop_last(),
            Set::new(|h: Seq<char>| hashes.contains(h) && h != a.last().event_hash),
        ),
{
    let x = a.last();
    let rest = a.drop_last();
    let left = Set::new(|h: Seq<char>| hashes.contains(h) && h != x.event_hash);
    assert forall|i: int, j: int| 0 <= i < j < rest.len() implies replayed_before(
        #[trigger] rest[i],
        #[trigger] rest[j],
    ) by {
        assert(rest[i] == a[i] && rest[j] == a[j]);
    }
    assert forall|i: int| 0 <= i < rest.len() implies left.contains(
        (#[trigger] rest[i]).event_hash,
    ) && rest[i] == g[rest[i].event_hash] by {
        assert(rest[i] == a[i]);
        assert(replayed_before(a[i], a[a.len() - 1]));
        if a[i].event_hash == x.event_hash {
            assert(a[i] == x);
            lex_lt_irreflexive(x.agent);
            lex_lt_irreflexive(x.event_hash);
        }
    }
    assert forall|h: Seq<char>| #[trigger] left.contains(h) implies exists|i: int|
        0 <= i < rest.len() && (#[trigger] rest[i]).event_hash == h by {
        let i = choose|i: int| 0 <= i < a.len() && (#[trigger] a[i]).event_hash == h;
        assert(rest[i] == a[i]);
    }
}

/// An event that is on one branch only is in the merged list, and on the other
/// branch it is not.
pub proof fn branches_are_apart(
    g: Graph,
    a: Seq<char>,
    b: Seq<char>,
    lca: Seq<char>,
    replay: (Seq<EventView>, Seq<EventView>, Seq<EventView>),
    e: EventView,
)
    requires
        common(g, a, b, lca),
        replays(g, a, b, lca, replay.0, replay.1, replay.2),
    ensures
        replay.0.contains(e) ==> replay.2.contains(e) && !replay.1.contains(e),
        replay.1.contains(e) ==> replay.2.contains(e) && !replay.0.contains(e),
{
    lemma_past_of_earlier(g, a, lca);
    lemma_past_of_earlier(g, b, lca);
    let (of_a, of_b, all) = replay;
    let hashes = since(g, lca, a).union(since(g, lca, b));
    if of_a.contains(e) {
        let i = of_a.index_of(e);
        assert(of_a[i] == e);
        assert(since(g, b, a).contains(of_a[i].event_hash));
    }
    if of_b.contains(e) {
        let i = of_b.index_of(e);
        assert(of_b[i] == e);
        assert(since(g, a, b).contains(of_b[i].event_hash));
    }
    if of_a.contains(e) || of_b.contains(e) {
        assert(hashes.contains(e.event_hash));
        let k = choose|k: int| 0 <= k < all.len() && (#[trigger] all[k]).event_hash == e.event_hash;
        assert(all[k] == e);
    }
}

/// A tip that the other comes after has no branch of its own. Where the branches
/// part at that tip, the merged list is the other branch.
pub proof fn earlier_tip_has_no_branch(
    g: Graph,
    a: Seq<char>,
    b: Seq<char>,
    lca: Seq<char>,
    replay: (Seq<EventView>, Seq<EventView>, Seq<EventView>),
)
    requires
        leads(up(g), b, a),
        replays(g, a, b, lca, replay.0, replay.1, replay.2),
    ensures
        replay.0.len() == 0,
        lca == a ==> replay.1 == replay.2,
{
    lemma_past_of_earlier(g, b, a);
    if replay.0.len() > 0 {
        assert(since(g, b, a).contains(replay.0[0].event_hash));
    }
    if lca == a {
        assert(since(g, a, a).union(since(g, a, b)) =~= since(g, a, b));
        listing_is_unique(g, replay.1, replay.2, since(g, a, b));
    }
}

/// A tip does not part from itself: all three lists are empty.
pub proof fn one_tip_has_no_branches(
    g: Graph,
    tip: Seq<char>,
    lca: Seq<char>,
    replay: (Seq<EventView>, Seq<EventView>, Seq<EventView>),
)
    requires
        found(g, tip, tip, lca),
        replays(g, tip, tip, lca, replay.0, replay.1, replay.2),
    ensures
        replay.0.len() == 0,
        replay.1.len() == 0,
        replay.2.len() == 0,
{
    let (of_a, of_b, all) = replay;
    if of_a.len() > 0 {
        assert(since(g, tip, tip).contains(of_a[0].event_hash));
    }
    if of_b.len() > 0 {
        assert(since(g, tip, tip).contains(of_b[0].event_hash));
    }
    if all.len() > 0 {
        assert(since(g, tip, tip).union(since(g, tip, tip)).contains(all[0].event_hash));
    }
}

/// Two replays of the same branches, given in either order, hold the same events
/// in the same order.
pub proof fn replay_is_symmetric(
    g: Graph,
    a: Seq<char>,
    b: Seq<char>,
    lca: Seq<char>,
    one: (Seq<EventView>, Seq<EventView>, Seq<EventView>),
    other: (Seq<EventView>, Seq<EventView>, Seq<EventView>),
)
    requires
        replays(g, a, b, lca, one.0, one.1, one.2),
        replays(g, b, a, lca, other.0, other.1, other.2),
    ensures
        one.0 == other.1,
        one.1 == other.0,
        one.2 == other.2,
{
    let of_a = since(g, lca, a);
    let of_b = since(g, lca, b);
    assert(of_a.union(of_b) =~= of_b.union(of_a));
    listing_is_unique(g, one.0, other.1, since(g, b, a));
    listing_is_unique(g, one.1, other.0, since(g, a, b));
    listing_is_unique(g, one.2, other.2, of_a.union(of_b));
}

/// A listing goes by time: an event with a smaller time stands before one with a
/// larger one, whatever else they are. Events of one time go by agent, and those of
/// one agent by hash, each in lexicographic order.
pub proof fn listing_goes_by_time(
    g: Graph,
    events: Seq<EventView>,
    hashes: Set<Seq<char>>,
    i: int,
    j: int,
)
    requires
        lists(g, events, hashes),
        0 <= i < events.len(),
        0 <= j < events.len(),
    ensures
        events[i].wall_ts_us < events[j].wall_ts_us ==> i < j,
        i < j ==> events[i].wall_ts_us <= events[j].wall_ts_us,
        i < j && events[i].wall_ts_us == events[j].wall_ts_us && events[i].agent != events[j].agent
            ==> lex_lt(events[i].agent, events[j].agent),
        i < j && events[i].wall_ts_us == events[j].wall_ts_us && events[i].agent == events[j].agent
            ==> lex_lt(events[i].event_hash, events[j].event_hash),
{
}

/// Each of the three lists of a replay goes by time, then agent, then hash.
pub proof fn replay_goes_by_time(
    g: Graph,
    a: Seq<char>,
    b: Seq<char>,
    lca: Seq<char>,
    replay: (Seq<EventView>, Seq<EventView>, Seq<EventView>),
)
    requires
        replays(g, a, b, lca, replay.0, replay.1, replay.2),
    ensures
        goes_by_time(replay.0),
        goes_by_time(replay.1),
        goes_by_time(replay.2),
        forall|i: int, j: int|
            0 <= i < replay.2.len() && 0 <= j < replay.2.len() && (
            #[trigger] replay.2[i]).wall_ts_us < (#[trigger] replay.2[j]).wall_ts_us ==> i < j,
{
}

/// Whether no event of a list has a larger time than a later one, and those of one
/// time go by agent and then hash.
pub open spec fn goes_by_time(events: Seq<EventView>) -> bool {
    forall|i: int, j: int|
        #![trigger events[i], events[j]]
        0 <= i < j < events.len() ==> {
            &&& events[i].wall_ts_us <= events[j].wall_ts_us
            &&& events[i].wall_ts_us == events[j].wall_ts_us ==> events[i].agent == events[j].agent
                || lex_lt(events[i].agent, events[j].agent)
            &&& events[i].wall_ts_us == events[j].wall_ts_us && events[i].agent == events[j].agent
                ==> lex_lt(events[i].event_hash, events[j].event_hash)
        }
}

/// What is in the lists of a replay, by the links of the graph alone. An event is
/// on the first branch exactly if it is the first tip or leads down to it, and is
/// neither the second tip nor leads down to that; the second branch likewise. It
/// is merged exactly if it is a tip or leads down to one, and is neither the event
/// where the branches parted nor leads down to that.
pub proof fn replay_holds_the_branches(
    g: Graph,
    a: Seq<char>,
    b: Seq<char>,
    lca: Seq<char>,
    replay: (Seq<EventView>, Seq<EventView>, Seq<EventView>),
    h: Seq<char>,
)
    requires
        replays(g, a, b, lca, replay.0, replay.1, replay.2),
        g.contains_key(h),
        g[h].event_hash == h,
    ensures
        replay.0.contains(g[h]) <==> (h == a || leads(up(g), a, h)) && !(h == b || leads(
            up(g),
            b,
            h,
        )),
        replay.1.contains(g[h]) <==> (h == b || leads(up(g), b, h)) && !(h == a || leads(
            up(g),
            a,
            h,
        )),
        replay.2.contains(g[h]) <==> (h == a || h == b || leads(up(g), a, h) || leads(up(g), b, h))
            && !(h == lca || leads(up(g), lca, h)),
{
    lemma_listed_exactly(g, replay.0, since(g, b, a), h);
    lemma_listed_exactly(g, replay.1, since(g, a, b), h);
    lemma_listed_exactly(g, replay.2, since(g, lca, a).union(since(g, lca, b)), h);
}

proof fn lemma_listed_exactly(
    g: Graph,
    events: Seq<EventView>,
    hashes: Set<Seq<char>>,
    h: Seq<char>,
)
    requires
        lists(g, events, hashes),
        g[h].event_hash == h,
    ensures
        events.contains(g[h]) <==> hashes.contains(h),
{
    if events.contains(g[h]) {
        let i = events.index_of(g[h]);
        assert(hashes.contains(events[i].event_hash));
    }
    if hashes.contains(h) {
        let i = choose|i: int| 0 <= i < events.len() && (#[trigger] events[i]).event_hash == h;
        assert(events[i] == g[h]);
    }
}

/// A listing has every event once, and nothing that is not in the graph under its
/// hash.
pub proof fn listing_has_no_repeats(g: Graph, events: Seq<EventView>, hashes: Set<Seq<char>>)
    requires
        lists(g, events, hashes),
    ensures
        forall|i: int, j: int|
            0 <= i < j < events.len() ==> (#[trigger] events[i]).event_hash != (
            #[trigger] events[j]).event_hash,
        forall|i: int| 0 <= i < events.len() ==> g[(#[trigger] events[i]).event_hash] == events[i],
{
    assert forall|i: int, j: int| 0 <= i < j < events.len() implies (#[trigger] events[i]).event_hash
        != (#[trigger] events[j]).event_hash by {
        lex_lt_irreflexive(events[i].agent);
        lex_lt_irreflexive(events[i].event_hash);
        if events[i].event_hash == events[j].event_hash {
            assert(events[i] == events[j]);
        }
    }
}

/// Of the events on two branches, those about an item are the ones that the replay
/// for the item has.
pub proof fn item_replay_is_a_part(
    g: Graph,
    all: Seq<EventView>,
    some: Seq<EventView>,
    hashes: Set<Seq<char>>,
    item: Seq<char>,
    e: EventView,
)
    requires
        lists(g, all, hashes),
        lists(g, some, about(g, hashes, item)),
    ensures
        some.contains(e) <==> all.contains(e) && e.item_id == item,
        goes_by_time(some),
{
    if some.contains(e) {
        let i = some.index_of(e);
        let h = some[i].event_hash;
        assert(about(g, hashes, item).contains(h));
        let k = choose|k: int| 0 <= k < all.len() && (#[trigger] all[k]).event_hash == h;
        assert(all[k] == e);
    }
    if all.contains(e) && e.item_id == item {
        let i = all.index_of(e);
        let h = all[i].event_hash;
        assert(about(g, hashes, item).contains(h));
        let k = choose|k: int| 0 <= k < some.len() && (#[trigger] some[k]).event_hash == h;
        assert(some[k] == e);
    }
}

}
