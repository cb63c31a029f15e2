//! Conflict-free replicated data types.

use crate::clock::wall::WallTime;
use crate::crdt::elements::{Element, Elements};
pub use crate::crdt::gset::GSet;
use std::cmp::Ordering;
use vstd::prelude::*;

pub mod elements;
pub mod gset;
pub mod item_laws;
pub mod item_state;
pub mod lww;
pub mod merge;
pub mod orset;
pub mod orset_laws;
pub mod state;
pub mod tags;
pub mod trace;

verus! {

/// Timestamp for last-write-wins values and set tags, ordered by wall time,
/// then actor, event hash and clock.
#[derive(Clone, Copy, Debug, PartialEq, Eq, Hash, Structural, Ord)]
pub struct Timestamp {
    pub wall: WallTime,
    pub actor: u64,
    pub event_hash: u64,
    pub itc: u64,
}

impl Timestamp {
    /// Whether one timestamp comes before another.
    pub open spec fn earlier(self, other: Timestamp) -> bool {
        self.wall.earlier(other.wall) || (self.wall == other.wall && (self.actor < other.actor || (
        self.actor == other.actor && (self.event_hash < other.event_hash || (self.event_hash
            == other.event_hash && self.itc < other.itc)))))
    }

    /// The later of two timestamps.
    pub open spec fn latest(self, other: Timestamp) -> Timestamp {
        if self.earlier(other) {
            other
        } else {
            self
        }
    }

    /// Whether this timestamp comes before another.
    pub fn is_before(&self, other: &Timestamp) -> (r: bool)
        ensures
            r == self.earlier(*other),
    {
        if self.wall.is_before(&other.wall) {
            true
        } else if self.wall != other.wall {
            false
        } else if self.actor != other.actor {
            self.actor < other.actor
        } else if self.event_hash != other.event_hash {
            self.event_hash < other.event_hash
        } else {
            self.itc < other.itc
        }
    }
}

impl View for Timestamp {
    type V = Timestamp;

    open spec fn view(&self) -> Timestamp {
        *self
    }
}

impl Element for Timestamp {
    fn same(&self, other: &Self) -> (r: bool) {
        *self == *other
    }

    fn duplicate(&self) -> (r: Self) {
        *self
    }
}

impl PartialOrd for Timestamp {
    fn partial_cmp(&self, other: &Self) -> (r: Option<Ordering>) {
        if self.is_before(other) {
            Some(Ordering::Less)
        } else if other.is_before(self) {
            Some(Ordering::Greater)
        } else {
            Some(Ordering::Equal)
        }
    }
}

impl vstd::std_specs::cmp::PartialOrdSpecImpl for Timestamp {
    open spec fn obeys_partial_cmp_spec() -> bool {
        true
    }

    open spec fn partial_cmp_spec(&self, other: &Self) -> Option<Ordering> {
        if self.earlier(*other) {
            Some(Ordering::Less)
        } else if other.earlier(*self) {
            Some(Ordering::Greater)
        } else {
            Some(Ordering::Equal)
        }
    }
}

/// Last-write-wins register ordered by a timestamp.
#[derive(Debug, PartialEq, Eq)]
pub struct Lww<T> {
    pub value: T,
    pub timestamp: Timestamp,
}

impl<T: Clone> Clone for Lww<T> {
    fn clone(&self) -> (r: Self)
        ensures
            cloned(self.value, r.value),
            r.timestamp == self.timestamp,
    {
        Lww { value: self.value.clone(), timestamp: self.timestamp }
    }
}

/// Observed-remove set, in which an add wins over a concurrent remove.
///
/// Every add of a value carries a tag of its own. `elements` holds the tagged
/// values that were added, `tombstone` those that were removed.
#[derive(Debug, PartialEq, Eq)]
pub struct OrSet<T: Element> {
    pub elements: Elements<(T, Timestamp)>,
    pub tombstone: Elements<(T, Timestamp)>,
}

/// Phase of an agreement round.
#[derive(Clone, Copy, Debug, PartialEq, Eq, Structural, Ord, PartialOrd)]
pub enum Phase {
    Init,
    Propose,
    Commit,
}

impl Phase {
    /// The rank of a phase.
    pub open spec fn level(self) -> u8 {
        match self {
            Phase::Init => 0,
            Phase::Propose => 1,
            Phase::Commit => 2,
        }
    }

    /// Returns the rank of this phase.
    pub fn rank(self) -> (r: u8)
        ensures
            r == self.level(),
    {
        match self {
            Phase::Init => 0,
            Phase::Propose => 1,
            Phase::Commit => 2,
        }
    }
}

/// An agreement round: the epoch and the phase that it has reached.
#[derive(Clone, Copy, Debug, PartialEq, Eq, Structural)]
pub struct EpochPhase {
    pub epoch: u64,
    pub phase: Phase,
}

impl EpochPhase {
    /// The later of two rounds.
    pub open spec fn join(self, other: EpochPhase) -> EpochPhase {
        if other.epoch > self.epoch || (other.epoch == self.epoch && other.phase.level()
            > self.phase.level()) {
            other
        } else {
            self
        }
    }
}

}
