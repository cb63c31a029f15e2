//! Merging by value.

use crate::crdt::elements::Element;
use crate::crdt::{EpochPhase, GSet, Lww, Phase, Timestamp};
use vstd::prelude::*;

verus! {

/// A replicated value that can absorb another replica's value.
pub trait Merge: Sized {
    /// What a merge of `other` into `before` leaves behind.
    spec fn absorbs(before: Self, other: Self, after: Self) -> bool;

    /// Merges another value into this one.
    fn merge(&mut self, other: Self)
        ensures
            Self::absorbs(*old(self), other, *final(self)),
    ;
}

impl Merge for Timestamp {
    open spec fn absorbs(before: Self, other: Self, after: Self) -> bool {
        after == before.latest(other)
    }

    fn merge(&mut self, other: Self) {
        if self.is_before(&other) {
            *self = other;
        }
    }
}

impl<T> Merge for Lww<T> {
    open spec fn absorbs(before: Self, other: Self, after: Self) -> bool {
        after == if before.timestamp.earlier(other.timestamp) {
            other
        } else {
            before
        }
    }

    fn merge(&mut self, other: Self) {
        if self.timestamp.is_before(&other.timestamp) {
            *self = other;
        }
    }
}

impl<T: Element> Merge for GSet<T> {
    open spec fn absorbs(before: Self, other: Self, after: Self) -> bool {
        after@ == before@.union(other@)
    }

    fn merge(&mut self, other: Self) {
        GSet::merge(self, &other);
    }
}

impl Merge for EpochPhase {
    open spec fn absorbs(before: Self, other: Self, after: Self) -> bool {
        after == before.join(other)
    }

    fn merge(&mut self, other: Self) {
        if other.epoch > self.epoch {
            *self = other;
        } else if other.epoch == self.epoch {
            if other.phase.rank() > self.phase.rank() {
                self.phase = other.phase;
            }
        }
    }
}

/// Taking the later timestamp is commutative, associative and idempotent.
pub proof fn timestamp_merge_is_a_semilattice(a: Timestamp, b: Timestamp, c: Timestamp)
    ensures
        a.latest(b) == b.latest(a),
        a.latest(b).latest(c) == a.latest(b.latest(c)),
        a.latest(a) == a,
{
}

/// Taking the later round is commutative, associative and idempotent.
pub proof fn round_merge_is_a_semilattice(a: EpochPhase, b: EpochPhase, c: EpochPhase)
    ensures
        a.join(b) == b.join(a),
        a.join(b).join(c) == a.join(b.join(c)),
        a.join(a) == a,
{
}

/// The order of timestamps is total: of two different ones, exactly one comes
/// before the other.
pub proof fn timestamps_are_totally_ordered(a: Timestamp, b: Timestamp)
    ensures
        a.earlier(b) || a == b || b.earlier(a),
        !(a.earlier(b) && b.earlier(a)),
{
}

/// Timestamps go by wall time: the earlier second comes first, then the smaller part
/// of it. Those of one moment go by actor, event hash and clock, in this order.
pub proof fn timestamps_go_by_time(a: Timestamp, b: Timestamp)
    ensures
        a.wall.secs < b.wall.secs ==> a.earlier(b) && a.latest(b) == b && b.latest(a) == b,
        a.wall.secs == b.wall.secs && a.wall.nanos < b.wall.nanos ==> a.earlier(b) && a.latest(b)
            == b && b.latest(a) == b,
        a.wall == b.wall && a.actor < b.actor ==> a.earlier(b) && a.latest(b) == b,
        a.wall == b.wall && a.actor == b.actor && a.event_hash < b.event_hash ==> a.earlier(b)
            && a.latest(b) == b,
        a.wall == b.wall && a.actor == b.actor && a.event_hash == b.event_hash && a.itc < b.itc
            ==> a.earlier(b) && a.latest(b) == b,
        !a.earlier(a),
{
}

/// Of two values, a merge keeps the one with the later time, in either order.
pub proof fn later_value_is_kept<T>(a: Lww<T>, b: Lww<T>, ab: Lww<T>, ba: Lww<T>)
    requires
        a.timestamp.wall.secs < b.timestamp.wall.secs,
        Lww::absorbs(a, b, ab),
        Lww::absorbs(b, a, ba),
    ensures
        ab == b,
        ba == b,
{
}

/// Of two rounds, a merge keeps the one of the higher epoch, and within one epoch
/// the one that is further on: committed, then proposed.
pub proof fn merge_keeps_the_further_round(a: EpochPhase, b: EpochPhase)
    ensures
        a.epoch > b.epoch ==> a.join(b) == a && b.join(a) == a,
        a.epoch == b.epoch ==> a.join(b).epoch == a.epoch,
        a.epoch == b.epoch ==> (a.join(b).phase == Phase::Commit <==> a.phase == Phase::Commit
            || b.phase == Phase::Commit),
        a.epoch == b.epoch ==> (a.join(b).phase == Phase::Init <==> a.phase == Phase::Init
            && b.phase == Phase::Init),
{
}

}
