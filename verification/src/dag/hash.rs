//! Checking the hashes of events.
//!
//! The hash of an event covers its content and the hashes of its parents, so a
//! changed event no longer has its hash, and what comes after it no longer has
//! its parent.

use crate::event::writer::{compute_event_hash, WriteError};
use crate::event::{Event, EventView};
use crate::text::set::StringSet;
use crate::text::slice::str_eq;
use vstd::prelude::*;

verus! {

/// Machine-readable codes for [`HashError`].
#[derive(Clone, Copy, Debug, PartialEq, Eq, Structural)]
pub enum HashErrorCode {
    /// The stored hash on an event does not match its computed hash.
    HashMismatch,
    /// An event names a parent that is not among the events.
    UnknownParent,
    /// The hash could not be computed.
    ComputeFailure,
}

/// Why events are not accepted.
#[allow(inconsistent_fields)]
#[derive(Debug, PartialEq, Eq)]
pub enum HashError {
    /// The stored hash does not match the recomputed one.
    HashMismatch {
        /// The hash stored on the event.
        stored: String,
        /// The hash that its fields have.
        expected: String,
    },
    /// A parent is not among the events.
    UnknownParent {
        /// The hash of the event that names the parent.
        event_hash: String,
        /// The hash of the parent.
        parent_hash: String,
    },
    /// The hash of an event could not be computed.
    Compute(WriteError),
}

/// Why events are not accepted, as plain values.
pub ghost enum HashFault {
    HashMismatch { stored: Seq<char>, expected: Seq<char> },
    UnknownParent { event_hash: Seq<char>, parent_hash: Seq<char> },
}

impl HashError {
    /// What the error says, where a hash could be computed.
    pub open spec fn fault(self) -> Option<HashFault> {
        match self {
            HashError::HashMismatch { stored, expected } => Some(
                HashFault::HashMismatch { stored: stored@, expected: expected@ },
            ),
            HashError::UnknownParent { event_hash, parent_hash } => Some(
                HashFault::UnknownParent { event_hash: event_hash@, parent_hash: parent_hash@ },
            ),
            HashError::Compute(_) => None,
        }
    }

    /// The machine-readable code of the error.
    #[must_use]
    pub fn code(&self) -> (r: HashErrorCode)
        ensures
            r == match *self {
                HashError::HashMismatch { .. } => HashErrorCode::HashMismatch,
                HashError::UnknownParent { .. } => HashErrorCode::UnknownParent,
                HashError::Compute(_) => HashErrorCode::ComputeFailure,
            },
    {
        match self {
            HashError::HashMismatch { .. } => HashErrorCode::HashMismatch,
            HashError::UnknownParent { .. } => HashErrorCode::UnknownParent,
            HashError::Compute(_) => HashErrorCode::ComputeFailure,
        }
    }

    /// Explains the error.
    pub fn to_string(&self) -> (r: String)
        ensures
            r@ == match *self {
                HashError::HashMismatch { stored, expected } => "event hash mismatch: stored="@
                    + stored@ + " expected="@ + expected@,
                HashError::UnknownParent { event_hash, parent_hash } => "event "@ + event_hash@
                    + " references unknown parent "@ + parent_hash@,
                HashError::Compute(e) => "failed to compute event hash: "@ + e.text(),
            },
    {
        match self {
            HashError::HashMismatch { stored, expected } => {
                let mut s = "event hash mismatch: stored=".to_owned();
                s.append(stored.as_str());
                s.append(" expected=");
                s.append(expected.as_str());
                s
            },
            HashError::UnknownParent { event_hash, parent_hash } => {
                let mut s = "event ".to_owned();
                s.append(event_hash.as_str());
                s.append(" references unknown parent ");
                s.append(parent_hash.as_str());
                s
            },
            HashError::Compute(e) => {
                let mut s = "failed to compute event hash: ".to_owned();
                s.append(e.to_string().as_str());
                s
            },
        }
    }
}

/// Whether the hash stored on an event is the one that its fields have.
pub fn verify_event_hash(event: &Event) -> (r: Result<bool, HashError>)
    ensures
        r is Ok,
        r->Ok_0 == (event@.event_hash == event@.computed_hash()),
{
    match compute_event_hash(event) {
        Ok(expected) => Ok(str_eq(event.event_hash.as_str(), expected.as_str())),
        Err(e) => Err(HashError::Compute(e)),
    }
}

/// The hashes of events.
pub open spec fn known_hashes(events: Seq<&Event>) -> Set<Seq<char>> {
    Set::new(|h: Seq<char>| exists|i: int| 0 <= i < events.len() && (#[trigger] events[i])@.event_hash == h)
}

/// The first of some hashes that is not known.
pub open spec fn first_unknown(hashes: Seq<Seq<char>>, known: Set<Seq<char>>) -> Option<Seq<char>>
    decreases hashes.len(),
{
    if hashes.len() == 0 {
        None
    } else {
        match first_unknown(hashes.drop_last(), known) {
            Some(h) => Some(h),
            None => if known.contains(hashes.last()) {
                None
            } else {
                Some(hashes.last())
            },
        }
    }
}

/// What is wrong with an event, given the hash that its fields have and the
/// hashes that are known.
pub open spec fn event_fault(e: EventView, expected: Seq<char>, known: Set<Seq<char>>) -> Option<
    HashFault,
> {
    if e.event_hash != expected {
        Some(HashFault::HashMismatch { stored: e.event_hash, expected })
    } else {
        match first_unknown(e.parents, known) {
            Some(parent_hash) => Some(
                HashFault::UnknownParent { event_hash: e.event_hash, parent_hash },
            ),
            None => None,
        }
    }
}

/// What is wrong with the first `n` events.
pub open spec fn chain_fault(events: Seq<&Event>, known: Set<Seq<char>>, n: nat) -> Option<
    HashFault,
>
    decreases n,
{
    if n == 0 {
        None
    } else {
        match chain_fault(events, known, (n - 1) as nat) {
            Some(fault) => Some(fault),
            None => event_fault(events[n - 1]@, events[n - 1]@.computed_hash(), known),
        }
    }
}

proof fn lemma_unknown_stays(hashes: Seq<Seq<char>>, known: Set<Seq<char>>, n: int)
    requires
        0 <= n <= hashes.len(),
        first_unknown(hashes.take(n), known) is Some,
    ensures
        first_unknown(hashes, known) == first_unknown(hashes.take(n), known),
    decreases hashes.len(),
{
    if n == hashes.len() {
        assert(hashes.take(n) =~= hashes);
    } else {
        assert(hashes.drop_last().take(n) =~= hashes.take(n));
        lemma_unknown_stays(hashes.drop_last(), known, n);
    }
}

proof fn lemma_fault_stays(events: Seq<&Event>, known: Set<Seq<char>>, a: nat, b: nat)
    requires
        a <= b,
        chain_fault(events, known, a) is Some,
    ensures
        chain_fault(events, known, b) == chain_fault(events, known, a),
    decreases b,
{
    if a < b {
        lemma_fault_stays(events, known, a, (b - 1) as nat);
    }
}

/// Checks an event, given the hash that its fields have and the hashes that
/// are known: the stored hash first, then the parents in their order.
pub fn check_event(event: &Event, expected: String, known: &StringSet) -> (r: Result<(), HashError>)
    ensures
        match r {
            Ok(_) => event_fault(event@, expected@, known@) is None,
            Err(e) => e.fault() is Some && event_fault(event@, expected@, known@) == e.fault(),
        },
{
    if !str_eq(event.event_hash.as_str(), expected.as_str()) {
        return Err(HashError::HashMismatch { stored: event.event_hash.clone(), expected });
    }
    let ghost all = event@.parents;
    let mut i: usize = 0;
    assert(all.take(0) =~= Seq::empty());
    while i < event.parents.len()
        invariant
            i <= event.parents.len(),
            event@.event_hash == expected@,
            all == event@.parents,
            first_unknown(all.take(i as int), known@) is None,
        decreases event.parents.len() - i,
    {
        proof {
            assert(all.take(i + 1).drop_last() =~= all.take(i as int));
            assert(all.take(i + 1).last() == event.parents@[i as int]@);
        }
        let parent = &event.parents[i];
        if !known.contains(parent.as_str()) {
            proof {
                lemma_unknown_stays(all, known@, i + 1);
            }
            return Err(
                HashError::UnknownParent {
                    event_hash: event.event_hash.clone(),
                    parent_hash: parent.clone(),
                },
            );
        }
        i += 1;
    }
    assert(all.take(i as int) =~= all);
    Ok(())
}

/// Checks the integrity of a collection of events, in any order: every stored
/// hash is the one that the event's fields have, and every parent is among the
/// events. The first failure in the order given is reported.
pub fn verify_chain(events: &[&Event]) -> (r: Result<(), HashError>)
    ensures
        match r {
            Ok(_) => chain_fault(events@, known_hashes(events@), events@.len()) is None,
            Err(e) => e.fault() is Some && chain_fault(
                events@,
                known_hashes(events@),
                events@.len(),
            ) == e.fault(),
        },
{
    let mut known = StringSet::new();
    let mut i: usize = 0;
    while i < events.len()
        invariant
            i <= events.len(),
            forall|h: Seq<char>|
                #![trigger known@.contains(h)]
                known@.contains(h) <==> exists|k: int|
                    0 <= k < i && (#[trigger] events@[k])@.event_hash == h,
        decreases events.len() - i,
    {
        let ghost before = known@;
        known.insert(events[i].event_hash.clone());
        proof {
            assert forall|h: Seq<char>|
                #![trigger known@.contains(h)]
                known@.contains(h) <==> exists|k: int|
                    0 <= k < i + 1 && (#[trigger] events@[k])@.event_hash == h by {
                if before.contains(h) {
                    let k = choose|k: int| 0 <= k < i && (#[trigger] events@[k])@.event_hash == h;
                    assert(events@[k]@.event_hash == h);
                }
                if events@[i as int]@.event_hash == h {
                    assert(known@.contains(h));
                }
            }
        }
        i += 1;
    }
    assert(known@ =~= known_hashes(events@));
    let mut i: usize = 0;
    while i < events.len()
        invariant
            i <= events.len(),
            known@ == known_hashes(events@),
            chain_fault(events@, known@, i as nat) is None,
        decreases events.len() - i,
    {
        let event = events[i];
        match compute_event_hash(event) {
            Ok(expected) => {
                if let Err(e) = check_event(event, expected, &known) {
                    proof {
                        lemma_fault_stays(events@, known@, (i + 1) as nat, events@.len());
                    }
                    return Err(e);
                }
            },
            Err(e) => return Err(HashError::Compute(e)),
        }
        i += 1;
    }
    Ok(())
}

/// Whether each event has the hash that its fields have, and each parent is one
/// of the events.
pub open spec fn intact(events: Seq<&Event>) -> bool {
    forall|i: int|
        0 <= i < events.len() ==> (#[trigger] events[i])@.event_hash == events[i]@.computed_hash()
            && first_unknown(events[i]@.parents, known_hashes(events)) is None
}

/// Whether an event is among some events.
pub open spec fn among(events: Seq<&Event>, e: EventView) -> bool {
    exists|i: int| 0 <= i < events.len() && (#[trigger] events[i])@ == e
}

/// Events are accepted exactly if they are intact.
pub proof fn accepted_chain_is_intact(events: Seq<&Event>)
    ensures
        (chain_fault(events, known_hashes(events), events.len()) is None) == intact(events),
{
    let known = known_hashes(events);
    if chain_fault(events, known, events.len()) is None {
        assert forall|i: int| 0 <= i < events.len() implies (#[trigger] events[i])@.event_hash
            == events[i]@.computed_hash() && first_unknown(events[i]@.parents, known) is None by {
            lemma_no_fault_before(events, known, (i + 1) as nat, events.len());
        }
    }
    if intact(events) {
        lemma_intact_has_no_fault(events, events.len());
    }
}

/// In events that are intact, every parent of an event is one of the events.
pub proof fn intact_parents_are_known(events: Seq<&Event>, i: int, k: int)
    requires
        intact(events),
        0 <= i < events.len(),
        0 <= k < events[i]@.parents.len(),
    ensures
        exists|j: int|
            0 <= j < events.len() && (#[trigger] events[j])@.event_hash == events[i]@.parents[k],
{
    lemma_all_known(events[i]@.parents, known_hashes(events), k);
    assert(known_hashes(events).contains(events[i]@.parents[k]));
}

/// Whether events are accepted does not depend on their order, nor on how often
/// each is given.
pub proof fn chain_order_does_not_matter(a: Seq<&Event>, b: Seq<&Event>)
    requires
        forall|e: EventView| #[trigger] among(a, e) <==> among(b, e),
    ensures
        (chain_fault(a, known_hashes(a), a.len()) is None) == (chain_fault(
            b,
            known_hashes(b),
            b.len(),
        ) is None),
{
    accepted_chain_is_intact(a);
    accepted_chain_is_intact(b);
    lemma_same_events_known(a, b);
    lemma_same_events_known(b, a);
    assert(known_hashes(a) =~= known_hashes(b));
    if intact(a) {
        lemma_same_events_intact(a, b);
    }
    if intact(b) {
        lemma_same_events_intact(b, a);
    }
}

proof fn lemma_same_events_known(a: Seq<&Event>, b: Seq<&Event>)
    requires
        forall|e: EventView| #[trigger] among(a, e) ==> among(b, e),
    ensures
        known_hashes(a).subset_of(known_hashes(b)),
{
    assert forall|h: Seq<char>| #[trigger] known_hashes(a).contains(h) implies known_hashes(
        b,
    ).contains(h) by {
        let i = choose|i: int| 0 <= i < a.len() && (#[trigger] a[i])@.event_hash == h;
        assert(among(a, a[i]@));
        let j = choose|j: int| 0 <= j < b.len() && (#[trigger] b[j])@ == a[i]@;
        assert(b[j]@.event_hash == h);
    }
}

proof fn lemma_same_events_intact(a: Seq<&Event>, b: Seq<&Event>)
    requires
        forall|e: EventView| #[trigger] among(a, e) <==> among(b, e),
        known_hashes(a) == known_hashes(b),
        intact(a),
    ensures
        intact(b),
{
    assert forall|j: int| 0 <= j < b.len() implies (#[trigger] b[j])@.event_hash
        == b[j]@.computed_hash() && first_unknown(b[j]@.parents, known_hashes(b)) is None by {
        assert(among(b, b[j]@));
        assert(among(a, b[j]@));
        let i = choose|i: int| 0 <= i < a.len() && (#[trigger] a[i])@ == b[j]@;
        assert(a[i]@.event_hash == a[i]@.computed_hash());
    }
}

proof fn lemma_intact_has_no_fault(events: Seq<&Event>, n: nat)
    requires
        intact(events),
        n <= events.len(),
    ensures
        chain_fault(events, known_hashes(events), n) is None,
    decreases n,
{
    if n > 0 {
        lemma_intact_has_no_fault(events, (n - 1) as nat);
        assert(events[n - 1]@.event_hash == events[n - 1]@.computed_hash());
    }
}

proof fn lemma_no_fault_before(events: Seq<&Event>, known: Set<Seq<char>>, a: nat, b: nat)
    requires
        a <= b,
        chain_fault(events, known, b) is None,
    ensures
        chain_fault(events, known, a) is None,
    decreases b,
{
    if a < b {
        lemma_no_fault_before(events, known, a, (b - 1) as nat);
    }
}

proof fn lemma_all_known(hashes: Seq<Seq<char>>, known: Set<Seq<char>>, k: int)
    requires
        first_unknown(hashes, known) is None,
        0 <= k < hashes.len(),
    ensures
        known.contains(hashes[k]),
    decreases hashes.len(),
{
    if k < hashes.len() - 1 {
        lemma_all_known(hashes.drop_last(), known, k);
    }
}

proof fn lemma_first_unknown(hashes: Seq<Seq<char>>, known: Set<Seq<char>>)
    ensures
        match first_unknown(hashes, known) {
            Some(h) => exists|k: int|
                0 <= k < hashes.len() && #[trigger] hashes[k] == h && !known.contains(h) && forall|
                    j: int,
                |
                    0 <= j < k ==> known.contains(#[trigger] hashes[j]),
            None => forall|k: int|
                0 <= k < hashes.len() ==> known.contains(#[trigger] hashes[k]),
        },
    decreases hashes.len(),
{
    if hashes.len() > 0 {
        let front = hashes.drop_last();
        lemma_first_unknown(front, known);
        match first_unknown(front, known) {
            Some(h) => {
                let k = choose|k: int|
                    0 <= k < front.len() && #[trigger] front[k] == h && !known.contains(h)
                        && forall|j: int| 0 <= j < k ==> known.contains(#[trigger] front[j]);
                assert(hashes[k] == h);
                assert forall|j: int| 0 <= j < k implies known.contains(#[trigger] hashes[j]) by {
                    assert(front[j] == hashes[j]);
                }
            },
            None => {
                assert forall|j: int| 0 <= j < front.len() implies known.contains(
                    #[trigger] hashes[j],
                ) by {
                    assert(front[j] == hashes[j]);
                }
                assert(hashes[hashes.len() - 1] == hashes.last());
            },
        }
    }
}

/// An event is accepted exactly if it has the hash that is expected and all of its
/// parents are known. With another hash it is refused for that, with both hashes told.
/// Else it is refused for the first of its parents that is not known.
pub proof fn event_is_refused_for_its_first_fault(
    e: EventView,
    expected: Seq<char>,
    known: Set<Seq<char>>,
)
    ensures
        (event_fault(e, expected, known) is None) == (e.event_hash == expected && forall|k: int|
            0 <= k < e.parents.len() ==> known.contains(#[trigger] e.parents[k])),
        e.event_hash != expected ==> event_fault(e, expected, known) == Some(
            HashFault::HashMismatch { stored: e.event_hash, expected },
        ),
        e.event_hash == expected ==> forall|k: int|
            0 <= k < e.parents.len() && !known.contains(#[trigger] e.parents[k]) && (forall|j: int|
                0 <= j < k ==> known.contains(#[trigger] e.parents[j])) ==> event_fault(
                e,
                expected,
                known,
            ) == Some(
                HashFault::UnknownParent { event_hash: e.event_hash, parent_hash: e.parents[k] },
            ),
{
    lemma_first_unknown(e.parents, known);
}

/// Events are refused for the fault of the first of them that has one.
pub proof fn events_are_refused_for_their_first_fault(
    events: Seq<&Event>,
    known: Set<Seq<char>>,
    i: int,
)
    requires
        0 <= i < events.len(),
        event_fault(events[i]@, events[i]@.computed_hash(), known) is Some,
        forall|k: int|
            0 <= k < i ==> event_fault(
                (#[trigger] events[k])@,
                events[k]@.computed_hash(),
                known,
            ) is None,
    ensures
        chain_fault(events, known, events.len()) == event_fault(
            events[i]@,
            events[i]@.computed_hash(),
            known,
        ),
{
    lemma_no_fault_among(events, known, i as nat);
    lemma_fault_stays(events, known, (i + 1) as nat, events.len());
}

proof fn lemma_no_fault_among(events: Seq<&Event>, known: Set<Seq<char>>, n: nat)
    requires
        n <= events.len(),
        forall|k: int|
            0 <= k < n ==> event_fault(
                (#[trigger] events[k])@,
                events[k]@.computed_hash(),
                known,
            ) is None,
    ensures
        chain_fault(events, known, n) is None,
    decreases n,
{
    if n > 0 {
        lemma_no_fault_among(events, known, (n - 1) as nat);
        assert(event_fault(events[n - 1]@, events[n - 1]@.computed_hash(), known) is None);
    }
}

/// Events are accepted exactly if each has the hash of its own fields and names as
/// parents only events that are there.
pub proof fn accepted_events_name_each_other(events: Seq<&Event>)
    ensures
        (chain_fault(events, known_hashes(events), events.len()) is None) == (forall|i: int|
            0 <= i < events.len() ==> (#[trigger] events[i])@.event_hash
                == events[i]@.computed_hash() && forall|k: int|
                0 <= k < events[i]@.parents.len() ==> exists|j: int|
                    0 <= j < events.len() && (#[trigger] events[j])@.event_hash == (
                    #[trigger] events[i]@.parents[k])),
{
    let known = known_hashes(events);
    accepted_chain_is_intact(events);
    assert forall|i: int| 0 <= i < events.len() implies (first_unknown(
        (#[trigger] events[i])@.parents,
        known,
    ) is None) == (forall|k: int|
        0 <= k < events[i]@.parents.len() ==> exists|j: int|
            0 <= j < events.len() && (#[trigger] events[j])@.event_hash == (
            #[trigger] events[i]@.parents[k])) by {
        lemma_first_unknown(events[i]@.parents, known);
    }
}

}
