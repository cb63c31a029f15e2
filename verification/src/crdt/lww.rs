//! Last-writer-wins register.
//!
//! A merge keeps the winning write. Given two writes `a` and `b`:
//!
//! 1. If one of the stamps causally dominates the other, the later write wins.
//! 2. If they are concurrent or the same, the higher `wall_ts` wins.
//! 3. With equal wall clocks, the lexicographically greater `agent_id` wins.
//! 4. With equal agents, the lexicographically greater `event_hash` wins.
//!
//! Different events have different hashes, so no tie is left, and two replicas
//! that merge each other's register end with the same one.

use crate::clock::itc::Stamp;
use crate::text::order::{
    lex_le, lex_lt, lex_lt_asymmetric, lex_lt_irreflexive, lex_lt_total, lex_lt_transitive,
    str_rank, Rank,
};
use vstd::prelude::*;

verus! {

/// A last-writer-wins register holding a value of type `T`.
///
/// Each write records the value and what decides a merge: a stamp for causal
/// ordering, a wall-clock timestamp, the writing agent and the event hash.
#[derive(Debug, PartialEq, Eq)]
pub struct LwwRegister<T> {
    /// The current value of the register.
    pub value: T,
    /// Stamp for causal ordering.
    pub stamp: Stamp,
    /// Wall-clock timestamp in microseconds since the Unix epoch.
    pub wall_ts: u64,
    /// Agent identifier (e.g., "alice", "bot-1").
    pub agent_id: String,
    /// BLAKE3 hash of the event that wrote this value.
    pub event_hash: String,
}

/// What a merge decides by: the write without its value.
pub ghost struct Write {
    pub stamp: Stamp,
    pub wall_ts: u64,
    pub agent: Seq<char>,
    pub hash: Seq<char>,
}

impl Write {
    /// Whether this write comes after another in the order that breaks ties
    /// between writes of which none is causally later, or is level with it.
    pub open spec fn outranks(self, other: Write) -> bool {
        if self.wall_ts != other.wall_ts {
            self.wall_ts > other.wall_ts
        } else if self.agent != other.agent {
            lex_lt(other.agent, self.agent)
        } else {
            lex_le(other.hash, self.hash)
        }
    }

    /// Whether this write stays when another is merged into it: it is causally
    /// later, or neither is and it comes after in the order that breaks ties.
    pub open spec fn wins(self, other: Write) -> bool {
        let ahead = other.stamp.below(self.stamp);
        let behind = self.stamp.below(other.stamp);
        if ahead != behind {
            ahead
        } else {
            self.outranks(other)
        }
    }
}

impl<T> LwwRegister<T> {
    /// Whether the stamp can be compared.
    pub open spec fn wf(self) -> bool {
        self.stamp.wf()
    }

    /// The write that the register holds.
    pub open spec fn write(self) -> Write {
        Write {
            stamp: self.stamp,
            wall_ts: self.wall_ts,
            agent: self.agent_id@,
            hash: self.event_hash@,
        }
    }

    /// The register that wins.
    pub open spec fn join(self, other: LwwRegister<T>) -> LwwRegister<T> {
        if self.write().wins(other.write()) {
            self
        } else {
            other
        }
    }

    /// Creates a register with the given value and metadata.
    pub fn new(
        value: T,
        stamp: Stamp,
        wall_ts: u64,
        agent_id: String,
        event_hash: String,
    ) -> (r: Self)
        ensures
            r == (LwwRegister { value, stamp, wall_ts, agent_id, event_hash }),
    {
        LwwRegister { value, stamp, wall_ts, agent_id, event_hash }
    }

    /// Returns `true` if `self` wins over `other`.
    fn wins_over(&self, other: &Self) -> (r: bool)
        requires
            self.wf(),
            other.wf(),
        ensures
            r == self.write().wins(other.write()),
    {
        let self_leq_other = self.stamp.leq(&other.stamp);
        let other_leq_self = other.stamp.leq(&self.stamp);
        if self_leq_other != other_leq_self {
            return other_leq_self;
        }
        if self.wall_ts != other.wall_ts {
            return self.wall_ts > other.wall_ts;
        }
        proof {
            lex_lt_irreflexive(self.agent_id@);
            lex_lt_asymmetric(self.agent_id@, other.agent_id@);
            lex_lt_asymmetric(self.event_hash@, other.event_hash@);
            lex_lt_total(self.agent_id@, other.agent_id@);
            lex_lt_total(self.event_hash@, other.event_hash@);
        }
        match str_rank(self.agent_id.as_str(), other.agent_id.as_str()) {
            Rank::Greater => true,
            Rank::Less => false,
            Rank::Equal => match str_rank(self.event_hash.as_str(), other.event_hash.as_str()) {
                Rank::Less => false,
                _ => true,
            },
        }
    }
}

impl<T: Clone> LwwRegister<T> {
    /// Merges another register into this one, keeping the winning write.
    pub fn merge(&mut self, other: &Self)
        requires
            old(self).wf(),
            other.wf(),
        ensures
            final(self).wf(),
            final(self).write() == old(self).join(*other).write(),
            if old(self).write().wins(other.write()) {
                *final(self) == *old(self)
            } else {
                cloned(other.value, final(self).value)
            },
    {
        if self.wins_over(other) {
        } else {
            self.value = other.value.clone();
            self.stamp = other.stamp.clone();
            self.wall_ts = other.wall_ts;
            self.agent_id = other.agent_id.clone();
            self.event_hash = other.event_hash.clone();
        }
    }
}

impl<T: Clone> Clone for LwwRegister<T> {
    fn clone(&self) -> (r: Self)
        ensures
            r.write() == self.write(),
            cloned(self.value, r.value),
    {
        LwwRegister {
            value: self.value.clone(),
            stamp: self.stamp.clone(),
            wall_ts: self.wall_ts,
            agent_id: self.agent_id.clone(),
            event_hash: self.event_hash.clone(),
        }
    }
}

impl LwwRegister<String> {
    /// The text form: that of the value.
    pub fn to_string(&self) -> (r: String)
        ensures
            r@ == self.value@,
    {
        self.value.clone()
    }
}

/// Merging a register into itself changes nothing.
pub proof fn lww_merge_is_idempotent<T>(a: LwwRegister<T>)
    ensures
        a.join(a) == a,
{
}

/// Two registers merge to the same register in either order: they are the same,
/// or one is causally later, or the writes differ in wall clock, agent or hash.
/// Writes of different events have different hashes.
pub proof fn lww_merge_is_commutative<T>(a: LwwRegister<T>, b: LwwRegister<T>)
    requires
        a == b || a.stamp.below(b.stamp) != b.stamp.below(a.stamp) || a.wall_ts != b.wall_ts
            || a.agent_id@ != b.agent_id@ || a.event_hash@ != b.event_hash@,
    ensures
        a.join(b) == b.join(a),
{
    lex_lt_asymmetric(a.agent_id@, b.agent_id@);
    lex_lt_total(a.agent_id@, b.agent_id@);
    lex_lt_asymmetric(a.event_hash@, b.event_hash@);
    lex_lt_total(a.event_hash@, b.event_hash@);
}

proof fn lemma_outranks_transitive(a: Write, b: Write, c: Write)
    requires
        a.outranks(b),
        b.outranks(c),
    ensures
        a.outranks(c),
{
    if lex_lt(b.agent, a.agent) && lex_lt(c.agent, b.agent) {
        lex_lt_transitive(c.agent, b.agent, a.agent);
    }
    lex_lt_irreflexive(a.agent);
    if lex_lt(c.agent, a.agent) && c.agent == a.agent {
        lex_lt_irreflexive(a.agent);
    }
    if lex_lt(b.hash, a.hash) && lex_lt(c.hash, b.hash) {
        lex_lt_transitive(c.hash, b.hash, a.hash);
    }
    lex_lt_asymmetric(a.agent, b.agent);
    lex_lt_asymmetric(b.agent, c.agent);
}

/// Merging is associative wherever the three writes are not preferred in a
/// circle: the first over the second and the second over the third, but the
/// third over the first, or the other way round.
pub proof fn lww_merge_is_associative<T>(a: LwwRegister<T>, b: LwwRegister<T>, c: LwwRegister<T>)
    requires
        !(a.write().wins(b.write()) && b.write().wins(c.write()) && !a.write().wins(c.write())),
        !(!a.write().wins(b.write()) && !b.write().wins(c.write()) && a.write().wins(c.write())),
    ensures
        a.join(b).join(c) == a.join(b.join(c)),
{
}

/// Three writes of which none is causally later than another are never
/// preferred in a circle, so merging them is associative.
pub proof fn lww_merge_of_concurrent_is_associative<T>(
    a: LwwRegister<T>,
    b: LwwRegister<T>,
    c: LwwRegister<T>,
)
    requires
        a.stamp.below(b.stamp) == b.stamp.below(a.stamp),
        b.stamp.below(c.stamp) == c.stamp.below(b.stamp),
        a.stamp.below(c.stamp) == c.stamp.below(a.stamp),
    ensures
        a.join(b).join(c) == a.join(b.join(c)),
{
    if a.write().wins(b.write()) && b.write().wins(c.write()) {
        lemma_outranks_transitive(a.write(), b.write(), c.write());
    }
    if !a.write().wins(b.write()) && !b.write().wins(c.write()) && a.write().wins(c.write()) {
        lemma_outranks_total(a.write(), b.write());
        lemma_outranks_total(b.write(), c.write());
        lemma_outranks_transitive(c.write(), b.write(), a.write());
        lemma_outranks_both_ways(a.write(), c.write());
        lemma_outranks_transitive(b.write(), a.write(), c.write());
    }
}

proof fn lemma_outranks_total(a: Write, b: Write)
    ensures
        a.outranks(b) || b.outranks(a),
{
    lex_lt_total(a.agent, b.agent);
    lex_lt_total(a.hash, b.hash);
}

proof fn lemma_outranks_both_ways(a: Write, b: Write)
    requires
        a.outranks(b),
        b.outranks(a),
    ensures
        a.wall_ts == b.wall_ts,
        a.agent == b.agent,
        a.hash == b.hash,
{
    lex_lt_asymmetric(a.agent, b.agent);
    lex_lt_asymmetric(a.hash, b.hash);
    lex_lt_total(a.agent, b.agent);
}

/// The order that breaks ties is total and transitive, and level writes are the
/// same write.
pub proof fn outranks_is_total_preorder(a: Write, b: Write, c: Write)
    ensures
        a.outranks(b) || b.outranks(a),
        a.outranks(b) && b.outranks(c) ==> a.outranks(c),
        a.outranks(b) && b.outranks(a) ==> a.wall_ts == b.wall_ts && a.agent == b.agent && a.hash
            == b.hash,
{
    lemma_outranks_total(a, b);
    if a.outranks(b) && b.outranks(c) {
        lemma_outranks_transitive(a, b, c);
    }
    if a.outranks(b) && b.outranks(a) {
        lemma_outranks_both_ways(a, b);
    }
}

/// A register gives way to one that is causally later, and stays before one that is
/// causally earlier, whatever their clocks say.
pub proof fn causally_later_write_wins<T>(a: LwwRegister<T>, b: LwwRegister<T>)
    requires
        a.stamp.below(b.stamp),
        !b.stamp.below(a.stamp),
    ensures
        a.join(b) == b,
        b.join(a) == b,
{
}

/// Of two registers of which none is causally later, the one with the later clock
/// wins, of two with one clock that of the greater agent, and of two by one agent
/// that of the greater hash.
pub proof fn later_clock_wins<T>(a: LwwRegister<T>, b: LwwRegister<T>)
    requires
        a.stamp.below(b.stamp) == b.stamp.below(a.stamp),
        a.wall_ts < b.wall_ts || (a.wall_ts == b.wall_ts && (lex_lt(a.agent_id@, b.agent_id@) || (
        a.agent_id@ == b.agent_id@ && lex_lt(a.event_hash@, b.event_hash@)))),
    ensures
        a.join(b) == b,
        b.join(a) == b,
{
    lex_lt_asymmetric(a.agent_id@, b.agent_id@);
    lex_lt_asymmetric(a.event_hash@, b.event_hash@);
}

}
