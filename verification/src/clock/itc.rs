//! Interval tree clocks.
//!
//! A stamp pairs an identity, which owns part of the unit interval, with an
//! event tree, which assigns a count to every point of the interval. A point
//! is addressed by an infinite path of left and right turns.

use vstd::prelude::*;

verus! {

/// The part of the unit interval that a stamp owns.
#[derive(Debug, PartialEq, Eq)]
pub enum Id {
    /// Owns nothing.
    Zero,
    /// Owns everything below this node.
    One,
    /// Owns what the two halves own.
    Node(Box<Id>, Box<Id>),
}

/// Event counts over the unit interval.
#[derive(Debug, PartialEq, Eq)]
pub enum Event {
    /// The same count everywhere below this node.
    Leaf(u64),
    /// A base count plus the counts of the two halves.
    Node(u64, Box<Event>, Box<Event>),
}

/// An interval tree clock stamp.
#[derive(Debug, PartialEq, Eq)]
pub struct Stamp {
    pub id: Id,
    pub event: Event,
}

/// A point of the unit interval: at each depth, whether to turn right.
pub type Path = spec_fn(nat) -> bool;

impl Id {
    /// Whether the identity owns the point, starting at the given depth.
    pub open spec fn owns(self, path: Path, depth: nat) -> bool
        decreases self,
    {
        match self {
            Id::Zero => false,
            Id::One => true,
            Id::Node(l, r) => if path(depth) {
                r.owns(path, depth + 1)
            } else {
                l.owns(path, depth + 1)
            },
        }
    }
}

impl Event {
    /// The count at a point, starting at the given depth.
    pub open spec fn height(self, path: Path, depth: nat) -> nat
        decreases self,
    {
        match self {
            Event::Leaf(n) => n as nat,
            Event::Node(n, l, r) => n as nat + if path(depth) {
                r.height(path, depth + 1)
            } else {
                l.height(path, depth + 1)
            },
        }
    }

    /// The largest count anywhere.
    pub open spec fn peak(self) -> nat
        decreases self,
    {
        match self {
            Event::Leaf(n) => n as nat,
            Event::Node(n, l, r) => n as nat + if l.peak() <= r.peak() {
                r.peak()
            } else {
                l.peak()
            },
        }
    }
}

impl Stamp {
    /// Counts stay within the machine's range.
    pub open spec fn wf(self) -> bool {
        self.event.peak() <= u64::MAX
    }

    /// Whether every event that `self` has seen `other` has seen too.
    pub open spec fn below(self, other: Stamp) -> bool {
        forall|path: Path|
            #![trigger self.event.height(path, 0)]
            self.event.height(path, 0) <= other.event.height(path, 0)
    }
}

/// `path` with the turn at `depth` replaced.
spec fn turned(path: Path, depth: nat, right: bool) -> Path {
    |d: nat| if d == depth { right } else { path(d) }
}

proof fn lemma_height_agrees(e: Event, p: Path, q: Path, depth: nat)
    requires
        forall|d: nat| d >= depth ==> #[trigger] p(d) == q(d),
    ensures
        e.height(p, depth) == e.height(q, depth),
    decreases e,
{
    match e {
        Event::Leaf(_) => {},
        Event::Node(_, l, r) => {
            assert(p(depth) == q(depth));
            lemma_height_agrees(*l, p, q, depth + 1);
            lemma_height_agrees(*r, p, q, depth + 1);
        },
    }
}

/// `x + a` is at most `y + b` at every point below `depth`.
spec fn dominated(x: int, a: Event, y: int, b: Event, depth: nat) -> bool {
    forall|path: Path|
        #![trigger a.height(path, depth)]
        #![trigger b.height(path, depth)]
        x + a.height(path, depth) <= y + b.height(path, depth)
}

spec fn left_of(e: Event) -> Event {
    match e {
        Event::Leaf(_) => Event::Leaf(0),
        Event::Node(_, l, _) => *l,
    }
}

spec fn right_of(e: Event) -> Event {
    match e {
        Event::Leaf(_) => Event::Leaf(0),
        Event::Node(_, _, r) => *r,
    }
}

spec fn base_of(e: Event) -> int {
    match e {
        Event::Leaf(n) => n as int,
        Event::Node(n, _, _) => n as int,
    }
}

proof fn lemma_dominated_splits(x: int, a: Event, y: int, b: Event, depth: nat)
    ensures
        dominated(x, a, y, b, depth) <==> dominated(
            x + base_of(a),
            left_of(a),
            y + base_of(b),
            left_of(b),
            depth + 1,
        ) && dominated(
            x + base_of(a),
            right_of(a),
            y + base_of(b),
            right_of(b),
            depth + 1,
        ),
{
    let (xa, yb) = (x + base_of(a), y + base_of(b));
    let (la, lb, ra, rb) = (left_of(a), left_of(b), right_of(a), right_of(b));
    if dominated(x, a, y, b, depth) {
        assert forall|path: Path|
            #![trigger la.height(path, depth + 1)]
            #![trigger lb.height(path, depth + 1)]
            xa + la.height(path, depth + 1) <= yb + lb.height(path, depth + 1) by {
            let q = turned(path, depth, false);
            lemma_height_agrees(la, path, q, depth + 1);
            lemma_height_agrees(lb, path, q, depth + 1);
            assert(x + a.height(q, depth) <= y + b.height(q, depth));
        }
        assert forall|path: Path|
            #![trigger ra.height(path, depth + 1)]
            #![trigger rb.height(path, depth + 1)]
            xa + ra.height(path, depth + 1) <= yb + rb.height(path, depth + 1) by {
            let q = turned(path, depth, true);
            lemma_height_agrees(ra, path, q, depth + 1);
            lemma_height_agrees(rb, path, q, depth + 1);
            assert(x + a.height(q, depth) <= y + b.height(q, depth));
        }
    }
    if dominated(xa, la, yb, lb, depth + 1) && dominated(xa, ra, yb, rb, depth + 1) {
        assert forall|path: Path|
            #![trigger a.height(path, depth)]
            #![trigger b.height(path, depth)]
            x + a.height(path, depth) <= y + b.height(path, depth) by {
            if path(depth) {
                assert(xa + ra.height(path, depth + 1) <= yb + rb.height(path, depth + 1));
            } else {
                assert(xa + la.height(path, depth + 1) <= yb + lb.height(path, depth + 1));
            }
        }
    }
}

/// Compares two event trees raised by the given amounts.
fn event_leq(x: u64, a: &Event, y: u64, b: &Event, Ghost(depth): Ghost<nat>) -> (r: bool)
    requires
        x + a.peak() <= u64::MAX,
        y + b.peak() <= u64::MAX,
    ensures
        r == dominated(x as int, *a, y as int, *b, depth),
    decreases *a, *b,
{
    proof {
        lemma_dominated_splits(x as int, *a, y as int, *b, depth);
    }
    match a {
        Event::Leaf(n) => match b {
            Event::Leaf(m) => {
                proof {
                    let p: Path = |d: nat| false;
                    if dominated(x as int, *a, y as int, *b, depth) {
                        assert(x + a.height(p, depth) <= y + b.height(p, depth));
                    }
                }
                x + *n <= y + *m
            },
            Event::Node(m, l, r) => {
                leaf_leq(x + *n, y + *m, l, Ghost(depth + 1)) && leaf_leq(
                    x + *n,
                    y + *m,
                    r,
                    Ghost(depth + 1),
                )
            },
        },
        Event::Node(n, al, ar) => match b {
            Event::Leaf(m) => {
                leq_leaf(x + *n, al, y + *m, Ghost(depth + 1)) && leq_leaf(
                    x + *n,
                    ar,
                    y + *m,
                    Ghost(depth + 1),
                )
            },
            Event::Node(m, bl, br) => {
                event_leq(x + *n, al, y + *m, bl, Ghost(depth + 1)) && event_leq(
                    x + *n,
                    ar,
                    y + *m,
                    br,
                    Ghost(depth + 1),
                )
            },
        },
    }
}

/// Compares a constant with an event tree raised by `y`.
fn leaf_leq(x: u64, y: u64, b: &Event, Ghost(depth): Ghost<nat>) -> (r: bool)
    requires
        y + b.peak() <= u64::MAX,
    ensures
        r == dominated(x as int, Event::Leaf(0), y as int, *b, depth),
    decreases *b,
{
    proof {
        lemma_dominated_splits(x as int, Event::Leaf(0), y as int, *b, depth);
    }
    match b {
        Event::Leaf(m) => {
            proof {
                let p: Path = |d: nat| false;
                if dominated(x as int, Event::Leaf(0), y as int, *b, depth) {
                    assert(x + Event::Leaf(0).height(p, depth) <= y + b.height(p, depth));
                }
            }
            x <= y + *m
        },
        Event::Node(m, l, r) => {
            leaf_leq(x, y + *m, l, Ghost(depth + 1)) && leaf_leq(x, y + *m, r, Ghost(depth + 1))
        },
    }
}

/// Compares an event tree raised by `x` with a constant.
fn leq_leaf(x: u64, a: &Event, y: u64, Ghost(depth): Ghost<nat>) -> (r: bool)
    requires
        x + a.peak() <= u64::MAX,
    ensures
        r == dominated(x as int, *a, y as int, Event::Leaf(0), depth),
    decreases *a,
{
    proof {
        lemma_dominated_splits(x as int, *a, y as int, Event::Leaf(0), depth);
    }
    match a {
        Event::Leaf(n) => {
            proof {
                let p: Path = |d: nat| false;
                if dominated(x as int, *a, y as int, Event::Leaf(0), depth) {
                    assert(x + a.height(p, depth) <= y + Event::Leaf(0).height(p, depth));
                }
            }
            x + *n <= y
        },
        Event::Node(n, l, r) => {
            leq_leaf(x + *n, l, y, Ghost(depth + 1)) && leq_leaf(x + *n, r, y, Ghost(depth + 1))
        },
    }
}

impl Clone for Id {
    fn clone(&self) -> (r: Self)
        ensures
            r == *self,
        decreases self,
    {
        match self {
            Id::Zero => Id::Zero,
            Id::One => Id::One,
            Id::Node(l, r) => Id::Node(Box::new((&**l).clone()), Box::new((&**r).clone())),
        }
    }
}

impl Clone for Event {
    fn clone(&self) -> (r: Self)
        ensures
            r == *self,
        decreases self,
    {
        match self {
            Event::Leaf(n) => Event::Leaf(*n),
            Event::Node(n, l, r) => Event::Node(
                *n,
                Box::new((&**l).clone()),
                Box::new((&**r).clone()),
            ),
        }
    }
}

impl Clone for Stamp {
    fn clone(&self) -> (r: Self)
        ensures
            r == *self,
    {
        Stamp { id: self.id.clone(), event: self.event.clone() }
    }
}

/// Whether `a` and `b` together own what `id` owns and share nothing.
pub open spec fn parted(id: Id, a: Id, b: Id) -> bool {
    forall|path: Path, depth: nat|
        #![trigger id.owns(path, depth)]
        #![trigger a.owns(path, depth)]
        #![trigger b.owns(path, depth)]
        id.owns(path, depth) == (a.owns(path, depth) || b.owns(path, depth)) && !(a.owns(path, depth)
            && b.owns(path, depth))
}

proof fn lemma_parted_node(l: Id, r: Id, la: Id, ra: Id, lb: Id, rb: Id)
    requires
        parted(l, la, lb),
        parted(r, ra, rb),
    ensures
        parted(
            Id::Node(Box::new(l), Box::new(r)),
            Id::Node(Box::new(la), Box::new(ra)),
            Id::Node(Box::new(lb), Box::new(rb)),
        ),
{
    let id = Id::Node(Box::new(l), Box::new(r));
    let a = Id::Node(Box::new(la), Box::new(ra));
    let b = Id::Node(Box::new(lb), Box::new(rb));
    assert forall|path: Path, depth: nat|
        #![trigger id.owns(path, depth)]
        #![trigger a.owns(path, depth)]
        #![trigger b.owns(path, depth)]
        id.owns(path, depth) == (a.owns(path, depth) || b.owns(path, depth)) && !(a.owns(path, depth)
            && b.owns(path, depth)) by {
        let next = depth + 1;
        assert(l.owns(path, next) == (la.owns(path, next) || lb.owns(path, next)));
        assert(r.owns(path, next) == (ra.owns(path, next) || rb.owns(path, next)));
    }
}

/// The two halves of an identity.
pub open spec fn halves(id: Id) -> (Id, Id)
    decreases id,
{
    match id {
        Id::Zero => (Id::Zero, Id::Zero),
        Id::One => (
            Id::Node(Box::new(Id::One), Box::new(Id::Zero)),
            Id::Node(Box::new(Id::Zero), Box::new(Id::One)),
        ),
        Id::Node(l, r) => if *l == Id::Zero {
            let (a, b) = halves(*r);
            (Id::Node(Box::new(Id::Zero), Box::new(a)), Id::Node(Box::new(Id::Zero), Box::new(b)))
        } else if *r == Id::Zero {
            let (a, b) = halves(*l);
            (Id::Node(Box::new(a), Box::new(Id::Zero)), Id::Node(Box::new(b), Box::new(Id::Zero)))
        } else {
            (Id::Node(l, Box::new(Id::Zero)), Id::Node(Box::new(Id::Zero), r))
        },
    }
}

/// Splits an identity into two that share nothing.
fn split_id(id: &Id) -> (r: (Id, Id))
    ensures
        r == halves(*id),
        parted(*id, r.0, r.1),
    decreases id,
{
    match id {
        Id::Zero => (Id::Zero, Id::Zero),
        Id::One => {
            proof {
                lemma_parted_node(Id::One, Id::One, Id::One, Id::Zero, Id::Zero, Id::One);
                let whole = Id::Node(Box::new(Id::One), Box::new(Id::One));
                assert forall|path: Path, depth: nat|
                    #![trigger whole.owns(path, depth)]
                    whole.owns(path, depth) && Id::One.owns(path, depth) by {
                    reveal_with_fuel(Id::owns, 3);
                }
                let (a, b) = (
                    Id::Node(Box::new(Id::One), Box::new(Id::Zero)),
                    Id::Node(Box::new(Id::Zero), Box::new(Id::One)),
                );
                assert forall|path: Path, depth: nat|
                    #![trigger Id::One.owns(path, depth)]
                    #![trigger a.owns(path, depth)]
                    #![trigger b.owns(path, depth)]
                    Id::One.owns(path, depth) == (a.owns(path, depth) || b.owns(path, depth)) && !(
                    a.owns(path, depth) && b.owns(path, depth)) by {
                    assert(whole.owns(path, depth));
                }
            }
            (
                Id::Node(Box::new(Id::One), Box::new(Id::Zero)),
                Id::Node(Box::new(Id::Zero), Box::new(Id::One)),
            )
        },
        Id::Node(l, r) => {
            let left_empty = matches!(&**l, Id::Zero);
            let right_empty = matches!(&**r, Id::Zero);
            if left_empty {
                let (a, b) = split_id(r);
                proof {
                    lemma_parted_node(**l, **r, Id::Zero, a, Id::Zero, b);
                }
                (Id::Node(Box::new(Id::Zero), Box::new(a)), Id::Node(Box::new(Id::Zero), Box::new(b)))
            } else if right_empty {
                let (a, b) = split_id(l);
                proof {
                    lemma_parted_node(**l, **r, a, Id::Zero, b, Id::Zero);
                }
                (Id::Node(Box::new(a), Box::new(Id::Zero)), Id::Node(Box::new(b), Box::new(Id::Zero)))
            } else {
                proof {
                    lemma_parted_node(**l, **r, **l, Id::Zero, Id::Zero, **r);
                }
                (
                    Id::Node(Box::new((&**l).clone()), Box::new(Id::Zero)),
                    Id::Node(Box::new(Id::Zero), Box::new((&**r).clone())),
                )
            }
        },
    }
}

/// Whether `after` counts one more than `before` exactly where `id` owns.
pub open spec fn advanced(id: Id, before: Event, after: Event) -> bool {
    forall|path: Path, depth: nat|
        #![trigger after.height(path, depth)]
        #![trigger before.height(path, depth)]
        after.height(path, depth) == before.height(path, depth) + if id.owns(path, depth) {
            1nat
        } else {
            0nat
        }
}

proof fn lemma_advanced_node(id: Id, event: Event, l: Event, r: Event)
    requires
        id is Node,
        advanced(*id->Node_0, left_of(event), l),
        advanced(*id->Node_1, right_of(event), r),
    ensures
        advanced(id, event, Event::Node(base_of(event) as u64, Box::new(l), Box::new(r))),
{
    let after = Event::Node(base_of(event) as u64, Box::new(l), Box::new(r));
    assert forall|path: Path, depth: nat|
        #![trigger after.height(path, depth)]
        #![trigger event.height(path, depth)]
        after.height(path, depth) == event.height(path, depth) + if id.owns(path, depth) {
            1nat
        } else {
            0nat
        } by {
        let next = depth + 1;
        if path(depth) {
            assert(r.height(path, next) == right_of(event).height(path, next) + if id->Node_1.owns(
                path,
                next,
            ) {
                1nat
            } else {
                0nat
            });
        } else {
            assert(l.height(path, next) == left_of(event).height(path, next) + if id->Node_0.owns(
                path,
                next,
            ) {
                1nat
            } else {
                0nat
            });
        }
    }
}

/// An event tree with one more at every point that `id` owns.
pub open spec fn bumped(id: Id, event: Event) -> Event
    decreases id,
{
    match id {
        Id::Zero => event,
        Id::One => match event {
            Event::Leaf(n) => Event::Leaf((n + 1) as u64),
            Event::Node(n, l, r) => Event::Node((n + 1) as u64, l, r),
        },
        Id::Node(il, ir) => match event {
            Event::Leaf(n) => Event::Node(
                n,
                Box::new(bumped(*il, Event::Leaf(0))),
                Box::new(bumped(*ir, Event::Leaf(0))),
            ),
            Event::Node(n, el, er) => Event::Node(
                n,
                Box::new(bumped(*il, *el)),
                Box::new(bumped(*ir, *er)),
            ),
        },
    }
}

/// Adds one to the count of every point that `id` owns.
fn advance(id: &Id, event: &Event) -> (r: Event)
    requires
        event.peak() < u64::MAX,
    ensures
        r == bumped(*id, *event),
        r.peak() <= event.peak() + 1,
        advanced(*id, *event, r),
    decreases id,
{
    proof {
        reveal_with_fuel(Id::owns, 2);
        reveal_with_fuel(Event::height, 3);
        reveal_with_fuel(Event::peak, 3);
    }
    match id {
        Id::Zero => event.clone(),
        Id::One => match event {
            Event::Leaf(n) => Event::Leaf(*n + 1),
            Event::Node(n, l, r) => Event::Node(
                *n + 1,
                Box::new((&**l).clone()),
                Box::new((&**r).clone()),
            ),
        },
        Id::Node(il, ir) => match event {
            Event::Leaf(n) => {
                let zero = Event::Leaf(0);
                let l = advance(il, &zero);
                let r = advance(ir, &zero);
                proof {
                    lemma_advanced_node(*id, *event, l, r);
                }
                Event::Node(*n, Box::new(l), Box::new(r))
            },
            Event::Node(n, el, er) => {
                let l = advance(il, el);
                let r = advance(ir, er);
                proof {
                    lemma_advanced_node(*id, *event, l, r);
                }
                Event::Node(*n, Box::new(l), Box::new(r))
            },
        },
    }
}

impl Stamp {
    /// The stamp that owns everything and has seen nothing.
    pub fn seed() -> (r: Self)
        ensures
            r.id == Id::One,
            r.event == Event::Leaf(0),
            r.wf(),
    {
        Stamp { id: Id::One, event: Event::Leaf(0) }
    }

    /// Splits the stamp into two that have seen the same events and share
    /// no part of the interval.
    pub fn fork(&self) -> (r: (Self, Self))
        ensures
            r.0.event == self.event,
            r.1.event == self.event,
            (r.0.id, r.1.id) == halves(self.id),
            parted(self.id, r.0.id, r.1.id),
    {
        let (a, b) = split_id(&self.id);
        (Stamp { id: a, event: self.event.clone() }, Stamp { id: b, event: self.event.clone() })
    }

    /// Records one event over the part of the interval that the stamp owns.
    pub fn event(&mut self)
        requires
            old(self).event.peak() < u64::MAX,
        ensures
            final(self).id == old(self).id,
            final(self).event == bumped(old(self).id, old(self).event),
            final(self).wf(),
            final(self).event.peak() <= old(self).event.peak() + 1,
            advanced(old(self).id, old(self).event, final(self).event),
    {
        let next = advance(&self.id, &self.event);
        self.event = next;
    }

    /// Whether every event seen by this stamp was seen by the other.
    pub fn leq(&self, other: &Self) -> (r: bool)
        requires
            self.wf(),
            other.wf(),
        ensures
            r == self.below(*other),
    {
        let r = event_leq(0, &self.event, 0, &other.event, Ghost(0nat));
        proof {
            let (a, b) = (self.event, other.event);
            if r {
                assert forall|path: Path|
                    #![trigger a.height(path, 0)]
                    a.height(path, 0) <= b.height(path, 0) by {
                    assert(0 + a.height(path, 0) <= 0 + b.height(path, 0));
                }
            }
            if self.below(*other) {
                assert forall|path: Path|
                    #![trigger a.height(path, 0)]
                    #![trigger b.height(path, 0)]
                    0 + a.height(path, 0) <= 0 + b.height(path, 0) by {}
            }
        }
        r
    }

    /// Whether neither stamp has seen everything that the other has.
    pub fn concurrent(&self, other: &Self) -> (r: bool)
        requires
            self.wf(),
            other.wf(),
        ensures
            r == (!self.below(*other) && !other.below(*self)),
    {
        !self.leq(other) && !other.leq(self)
    }
}

/// Having seen at least as much is reflexive and transitive.
pub proof fn below_is_preorder(a: Stamp, b: Stamp, c: Stamp)
    ensures
        a.below(a),
        a.below(b) && b.below(c) ==> a.below(c),
{
    if a.below(b) && b.below(c) {
        assert forall|path: Path|
            #![trigger a.event.height(path, 0)]
            a.event.height(path, 0) <= c.event.height(path, 0) by {
            assert(a.event.height(path, 0) <= b.event.height(path, 0));
            assert(b.event.height(path, 0) <= c.event.height(path, 0));
        }
    }
}

/// Of the two halves of an identity, each point that it owns belongs to one, and a
/// point that it does not own to none.
pub proof fn each_point_goes_to_one_half(id: Id, path: Path, depth: nat)
    ensures
        id.owns(path, depth) ==> halves(id).0.owns(path, depth) != halves(id).1.owns(path, depth),
        !id.owns(path, depth) ==> !halves(id).0.owns(path, depth) && !halves(id).1.owns(path, depth),
    decreases id,
{
    reveal_with_fuel(Id::owns, 2);
    match id {
        Id::Node(l, r) => {
            each_point_goes_to_one_half(*l, path, depth + 1);
            each_point_goes_to_one_half(*r, path, depth + 1);
        },
        _ => {},
    }
}

/// An event of an identity counts one more at each point that the identity owns, and
/// nothing anywhere else.
pub proof fn event_counts_where_it_is_owned(id: Id, before: Event, path: Path, depth: nat)
    requires
        before.peak() < u64::MAX,
    ensures
        id.owns(path, depth) ==> bumped(id, before).height(path, depth) == before.height(path, depth)
            + 1,
        !id.owns(path, depth) ==> bumped(id, before).height(path, depth) == before.height(
            path,
            depth,
        ),
    decreases id,
{
    reveal_with_fuel(Event::height, 2);
    reveal_with_fuel(Event::peak, 2);
    match id {
        Id::Node(il, ir) => {
            event_counts_where_it_is_owned(*il, left_of(before), path, depth + 1);
            event_counts_where_it_is_owned(*ir, right_of(before), path, depth + 1);
        },
        _ => {},
    }
}

/// A stamp comes before itself after an event, and not the other way round if it owns
/// anything.
pub proof fn event_comes_after(stamp: Stamp, path: Path)
    requires
        stamp.event.peak() < u64::MAX,
        stamp.id.owns(path, 0),
    ensures
        ({
            let after = Stamp { id: stamp.id, event: bumped(stamp.id, stamp.event) };
            stamp.below(after) && !after.below(stamp)
        }),
{
    let after = Stamp { id: stamp.id, event: bumped(stamp.id, stamp.event) };
    assert forall|p: Path|
        #![trigger stamp.event.height(p, 0)]
        stamp.event.height(p, 0) <= after.event.height(p, 0) by {
        event_counts_where_it_is_owned(stamp.id, stamp.event, p, 0);
    }
    event_counts_where_it_is_owned(stamp.id, stamp.event, path, 0);
    assert(after.event.height(path, 0) > stamp.event.height(path, 0));
}

/// Two halves of a stamp that each see an event of their own have not seen each
/// other's.
pub proof fn events_of_two_halves_are_concurrent(stamp: Stamp, p: Path, q: Path)
    requires
        stamp.event.peak() < u64::MAX,
        halves(stamp.id).0.owns(p, 0),
        halves(stamp.id).1.owns(q, 0),
    ensures
        ({
            let (l, r) = halves(stamp.id);
            let a = Stamp { id: l, event: bumped(l, stamp.event) };
            let b = Stamp { id: r, event: bumped(r, stamp.event) };
            !a.below(b) && !b.below(a)
        }),
{
    let (l, r) = halves(stamp.id);
    let a = Stamp { id: l, event: bumped(l, stamp.event) };
    let b = Stamp { id: r, event: bumped(r, stamp.event) };
    each_point_goes_to_one_half(stamp.id, p, 0);
    each_point_goes_to_one_half(stamp.id, q, 0);
    event_counts_where_it_is_owned(l, stamp.event, p, 0);
    event_counts_where_it_is_owned(r, stamp.event, p, 0);
    event_counts_where_it_is_owned(l, stamp.event, q, 0);
    event_counts_where_it_is_owned(r, stamp.event, q, 0);
    assert(a.event.height(p, 0) > b.event.height(p, 0));
    assert(b.event.height(q, 0) > a.event.height(q, 0));
}

}
