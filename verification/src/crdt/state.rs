//! Lifecycle state as an epoch and a phase.
//!
//! Phases are ranked `Open < Doing < Done < Archived`. A merge takes the higher
//! epoch, and within one epoch the higher phase. Reopening starts a new epoch,
//! so it wins over everything that happened in the epochs before it.

use crate::text::decimal::{nat_text, u64_text};
use crate::text::slice::str_eq;
use std::cmp::Ordering;
use vstd::prelude::*;

verus! {

/// Work item lifecycle phase, ordered by rank.
#[derive(Clone, Copy, Debug, PartialEq, Eq, Hash, Structural, Ord)]
pub enum Phase {
    Open,
    Doing,
    Done,
    Archived,
}

impl Phase {
    /// The text form.
    pub open spec fn name(self) -> Seq<char> {
        match self {
            Phase::Open => "open"@,
            Phase::Doing => "doing"@,
            Phase::Done => "done"@,
            Phase::Archived => "archived"@,
        }
    }

    /// The phase whose text form is `s`.
    pub open spec fn named(s: Seq<char>) -> Option<Phase> {
        if s == "open"@ {
            Some(Phase::Open)
        } else if s == "doing"@ {
            Some(Phase::Doing)
        } else if s == "done"@ {
            Some(Phase::Done)
        } else if s == "archived"@ {
            Some(Phase::Archived)
        } else {
            None
        }
    }

    /// The numeric rank of a phase.
    pub open spec fn level(self) -> u8 {
        match self {
            Phase::Open => 0,
            Phase::Doing => 1,
            Phase::Done => 2,
            Phase::Archived => 3,
        }
    }

    /// All phases in rank order.
    pub const ALL: [Phase; 4] = [Phase::Open, Phase::Doing, Phase::Done, Phase::Archived];

    /// Returns the numeric rank of this phase.
    #[must_use]
    pub fn rank(self) -> (r: u8)
        ensures
            r == self.level(),
    {
        match self {
            Phase::Open => 0,
            Phase::Doing => 1,
            Phase::Done => 2,
            Phase::Archived => 3,
        }
    }

    /// Reads a phase, or explains which text is not one.
    pub fn from_str(s: &str) -> (r: Result<Phase, String>)
        ensures
            match r {
                Ok(phase) => Phase::named(s@) == Some(phase),
                Err(message) => Phase::named(s@) is None && message@ == "unknown phase: "@ + s@,
            },
    {
        match Phase::from_name(s) {
            Some(phase) => Ok(phase),
            None => {
                let mut message = "unknown phase: ".to_owned();
                message.append(s);
                Err(message)
            },
        }
    }

    /// The name as an owned text.
    pub fn to_string(&self) -> (r: String)
        ensures
            r@ == self.name(),
    {
        self.as_str().to_owned()
    }

    /// Returns the canonical text form.
    pub fn as_str(self) -> (r: &'static str)
        ensures
            r@ == self.name(),
    {
        match self {
            Phase::Open => "open",
            Phase::Doing => "doing",
            Phase::Done => "done",
            Phase::Archived => "archived",
        }
    }

    /// Reads a phase from its text form.
    pub fn from_name(s: &str) -> (r: Option<Phase>)
        ensures
            r == Phase::named(s@),
    {
        if str_eq(s, "open") {
            Some(Phase::Open)
        } else if str_eq(s, "doing") {
            Some(Phase::Doing)
        } else if str_eq(s, "done") {
            Some(Phase::Done)
        } else if str_eq(s, "archived") {
            Some(Phase::Archived)
        } else {
            None
        }
    }

    /// Every phase is read back from its text form.
    pub proof fn name_reads_back(self)
        ensures
            Phase::named(self.name()) == Some(self),
    {
        reveal_strlit("open");
        reveal_strlit("doing");
        reveal_strlit("done");
        reveal_strlit("archived");
        assert("open"@.len() != "doing"@.len());
        assert("open"@[0] != "done"@[0]);
        assert("open"@.len() != "archived"@.len());
        assert("doing"@.len() != "done"@.len());
        assert("doing"@.len() != "archived"@.len());
        assert("done"@.len() != "archived"@.len());
    }
}

impl PartialOrd for Phase {
    fn partial_cmp(&self, other: &Self) -> (r: Option<Ordering>) {
        if self.rank() < other.rank() {
            Some(Ordering::Less)
        } else if self.rank() == other.rank() {
            Some(Ordering::Equal)
        } else {
            Some(Ordering::Greater)
        }
    }
}

impl vstd::std_specs::cmp::PartialOrdSpecImpl for Phase {
    open spec fn obeys_partial_cmp_spec() -> bool {
        true
    }

    open spec fn partial_cmp_spec(&self, other: &Self) -> Option<Ordering> {
        if self.level() < other.level() {
            Some(Ordering::Less)
        } else if self.level() == other.level() {
            Some(Ordering::Equal)
        } else {
            Some(Ordering::Greater)
        }
    }
}

impl std::str::FromStr for Phase {
    type Err = String;

    fn from_str(s: &str) -> (r: Result<Self, String>)
        ensures
            match r {
                Ok(phase) => Phase::named(s@) == Some(phase),
                Err(message) => Phase::named(s@) is None && message@ == "unknown phase: "@ + s@,
            },
    {
        Phase::from_str(s)
    }
}

/// Lifecycle state: an epoch counter and the phase within that epoch.
#[derive(Clone, Copy, Debug, PartialEq, Eq, Hash, Structural)]
pub struct EpochPhaseState {
    /// Monotonically increasing epoch counter. Incremented on reopen.
    pub epoch: u64,
    /// Current lifecycle phase within this epoch.
    pub phase: Phase,
}

/// A refused state transition.
#[derive(Clone, Copy, Debug, PartialEq, Eq, Structural)]
pub enum StateError {
    InvalidTransition { from: Phase, to: Phase, epoch: u64 },
}

impl StateError {
    /// The explanation of the error.
    pub open spec fn text(self) -> Seq<char> {
        match self {
            StateError::InvalidTransition { from, to, epoch } => "invalid transition from "@
                + from.name() + " to "@ + to.name() + " in epoch "@ + nat_text(epoch as nat),
        }
    }

    /// Explains the error.
    pub fn to_string(&self) -> (r: String)
        ensures
            r@ == self.text(),
    {
        match self {
            StateError::InvalidTransition { from, to, epoch } => {
                let mut s = "invalid transition from ".to_owned();
                s.append(from.as_str());
                s.append(" to ");
                s.append(to.as_str());
                s.append(" in epoch ");
                s.append(u64_text(*epoch).as_str());
                s
            },
        }
    }
}

impl EpochPhaseState {
    /// Whether one state comes before another or equals it.
    pub open spec fn at_most(self, other: EpochPhaseState) -> bool {
        self.epoch < other.epoch || (self.epoch == other.epoch && self.phase.level()
            <= other.phase.level())
    }

    /// The later of two states.
    pub open spec fn join(self, other: EpochPhaseState) -> EpochPhaseState {
        if other.at_most(self) {
            self
        } else {
            other
        }
    }

    /// The state after the item is reopened: the next epoch, from its first phase.
    pub open spec fn reopened(self) -> EpochPhaseState {
        EpochPhaseState { epoch: (self.epoch + 1) as u64, phase: Phase::Open }
    }

    /// The state after an advance to a phase, if that is a later one.
    pub open spec fn advanced(self, target: Phase) -> Option<EpochPhaseState> {
        if self.phase.level() < target.level() {
            Some(EpochPhaseState { epoch: self.epoch, phase: target })
        } else {
            None
        }
    }

    /// The text form.
    pub open spec fn text(self) -> Seq<char> {
        "epoch="@ + nat_text(self.epoch as nat) + " phase="@ + self.phase.name()
    }

    /// Creates a state at epoch 0, phase Open.
    #[must_use]
    pub fn new() -> (r: Self)
        ensures
            r == (EpochPhaseState { epoch: 0, phase: Phase::Open }),
    {
        EpochPhaseState { epoch: 0, phase: Phase::Open }
    }

    /// Creates a state with a given epoch and phase.
    #[must_use]
    pub fn with(epoch: u64, phase: Phase) -> (r: Self)
        ensures
            r == (EpochPhaseState { epoch, phase }),
    {
        EpochPhaseState { epoch, phase }
    }

    /// Advances to a later phase within the current epoch.
    ///
    /// Within one epoch phases only move forward: a target that is not later
    /// than the current phase is refused and the state stays as it was.
    pub fn advance(&mut self, target: Phase) -> (r: Result<(), StateError>)
        ensures
            match r {
                Ok(_) => target.level() > old(self).phase.level() && *final(self) == (
                EpochPhaseState { epoch: old(self).epoch, phase: target }),
                Err(e) => target.level() <= old(self).phase.level() && *final(self) == *old(self)
                    && e == (StateError::InvalidTransition {
                    from: old(self).phase,
                    to: target,
                    epoch: old(self).epoch,
                }),
            },
            match old(self).advanced(target) {
                Some(state) => r is Ok && *final(self) == state,
                None => r is Err && *final(self) == *old(self),
            },
    {
        if target.rank() <= self.phase.rank() {
            return Err(
                StateError::InvalidTransition { from: self.phase, to: target, epoch: self.epoch },
            );
        }
        self.phase = target;
        Ok(())
    }

    /// Reopens the item: the next epoch, phase Open. Valid from any phase.
    pub fn reopen(&mut self)
        requires
            old(self).epoch < u64::MAX,
        ensures
            *final(self) == (EpochPhaseState {
                epoch: (old(self).epoch + 1) as u64,
                phase: Phase::Open,
            }),
            *final(self) == old(self).reopened(),
    {
        self.epoch = self.epoch + 1;
        self.phase = Phase::Open;
    }

    /// Merges another state into this one: the later of the two.
    pub fn merge(&mut self, other: &Self)
        ensures
            *final(self) == old(self).join(*other),
    {
        if self.epoch < other.epoch {
            self.epoch = other.epoch;
            self.phase = other.phase;
        } else if self.epoch == other.epoch {
            if other.phase.rank() > self.phase.rank() {
                self.phase = other.phase;
            }
        }
    }

    /// The text form, such as `epoch=2 phase=done`.
    pub fn to_string(&self) -> (r: String)
        ensures
            r@ == self.text(),
    {
        let mut s = "epoch=".to_owned();
        s.append(u64_text(self.epoch).as_str());
        s.append(" phase=");
        s.append(self.phase.as_str());
        s
    }
}

impl Default for EpochPhaseState {
    fn default() -> (r: Self)
        ensures
            r == (EpochPhaseState { epoch: 0, phase: Phase::Open }),
    {
        EpochPhaseState::new()
    }
}

/// Merging states is commutative, associative and idempotent, and gives the
/// least state that is at or above both.
pub proof fn state_merge_is_a_semilattice(
    a: EpochPhaseState,
    b: EpochPhaseState,
    c: EpochPhaseState,
)
    ensures
        a.join(b) == b.join(a),
        a.join(b).join(c) == a.join(b.join(c)),
        a.join(a) == a,
        a.at_most(a.join(b)),
        b.at_most(a.join(b)),
        a.at_most(c) && b.at_most(c) ==> a.join(b).at_most(c),
{
}

/// A reopened item wins over every state of the epoch that it left.
pub proof fn reopen_wins(left: EpochPhaseState, concurrent: EpochPhaseState)
    requires
        left.epoch < u64::MAX,
        concurrent.epoch <= left.epoch,
    ensures
        ({
            let reopened = EpochPhaseState { epoch: (left.epoch + 1) as u64, phase: Phase::Open };
            concurrent.join(reopened) == reopened && reopened.join(concurrent) == reopened
        }),
{
}

/// Phases are ranked: open before doing, doing before done, done before archived.
pub proof fn phases_are_ranked()
    ensures
        Phase::Open.level() < Phase::Doing.level(),
        Phase::Doing.level() < Phase::Done.level(),
        Phase::Done.level() < Phase::Archived.level(),
{
}

/// A merge keeps the state of the higher epoch, whatever the phases. Within one
/// epoch it keeps the phase that is further on: archived, then done, then doing.
pub proof fn merge_keeps_what_is_further_on(a: EpochPhaseState, b: EpochPhaseState)
    ensures
        a.epoch > b.epoch ==> a.join(b) == a && b.join(a) == a,
        a.epoch == b.epoch ==> ({
            let phase = a.join(b).phase;
            &&& a.join(b).epoch == a.epoch
            &&& phase == Phase::Archived <==> a.phase == Phase::Archived || b.phase
                == Phase::Archived
            &&& phase == Phase::Open <==> a.phase == Phase::Open && b.phase == Phase::Open
            &&& phase == Phase::Done ==> a.phase == Phase::Done || b.phase == Phase::Done
            &&& phase == Phase::Doing ==> a.phase != Phase::Done && b.phase != Phase::Done
        }),
{
}

/// A reopened item is open, in the epoch after the one it left, and wins over every
/// state of that epoch and of those before it. Every advance after it wins over it.
pub proof fn reopened_item_is_open_and_wins(
    left: EpochPhaseState,
    other: EpochPhaseState,
    target: Phase,
)
    requires
        left.epoch < u64::MAX,
    ensures
        left.reopened().phase == Phase::Open,
        left.reopened().epoch - left.epoch == 1,
        other.epoch <= left.epoch ==> other.join(left.reopened()) == left.reopened(),
        other.epoch > left.epoch + 1 ==> other.join(left.reopened()) == other,
        target != Phase::Open ==> left.reopened().advanced(target) is Some
            && left.reopened().join(left.reopened().advanced(target)->0)
            == left.reopened().advanced(target)->0,
{
}

/// An advance goes to the phase that is asked for and stays in the epoch. It wins over
/// the state that it left. It is refused exactly if the state is already at that phase
/// or further on, which a merge with it would then keep.
pub proof fn advance_goes_forward(s: EpochPhaseState, target: Phase)
    ensures
        match s.advanced(target) {
            Some(t) => t.phase == target && t.epoch == s.epoch && t != s && s.join(t) == t && t.join(
                s,
            ) == t,
            None => s.join(EpochPhaseState { epoch: s.epoch, phase: target }) == s,
        },
        s.phase == target ==> s.advanced(target) is None,
{
}

}
