//! Tags and stamps that events give to what they write.

use crate::clock::itc::{bumped, halves, Event as Counts, Id, Path, Stamp};
use crate::clock::wall::{utc_at, utc_now, WallTime};
use crate::crdt::Timestamp;
use std::collections::hash_map::DefaultHasher;
use std::hash::{Hash, Hasher};
use vstd::arithmetic::div_mod::lemma_mod_breakdown;
use vstd::prelude::*;
use vstd::std_specs::hash::DefaultHasherAdditionalSpecFns;

verus! {

/// What hashing a text feeds to a hasher, write by write.
pub uninterp spec fn text_writes(s: Seq<char>) -> Seq<Seq<u8>>;

/// Calls `std::hash::Hash::hash` of a text on a `DefaultHasher`, which feeds the
/// hasher a sequence of writes that depends on the text alone.
#[verifier::external_body]
fn feed(s: &str, hasher: &mut DefaultHasher)
    ensures
        final(hasher)@ == old(hasher)@ + text_writes(s@),
{
    s.hash(hasher);
}

/// The hash of a text.
pub open spec fn text_hash(s: Seq<char>) -> u64 {
    DefaultHasher::spec_finish(text_writes(s))
}

/// The hash of two texts, one after the other.
pub open spec fn pair_hash(a: Seq<char>, b: Seq<char>) -> u64 {
    DefaultHasher::spec_finish(text_writes(a) + text_writes(b))
}

/// Hashes a text to a number.
pub fn hash_str_to_u64(s: &str) -> (r: u64)
    ensures
        r == text_hash(s@),
{
    let mut hasher = DefaultHasher::new();
    feed(s, &mut hasher);
    assert(hasher@ =~= text_writes(s@));
    hasher.finish()
}

fn hash_pair(a: &str, b: &str) -> (r: u64)
    ensures
        r == pair_hash(a@, b@),
{
    let mut hasher = DefaultHasher::new();
    feed(a, &mut hasher);
    feed(b, &mut hasher);
    assert(hasher@ =~= text_writes(a@) + text_writes(b@));
    hasher.finish()
}

/// A signed number read as an unsigned one of the same width.
pub open spec fn unsigned(n: i64) -> u64 {
    if n >= 0 {
        n as u64
    } else {
        (n + 0x1_0000_0000_0000_0000) as u64
    }
}

/// Reads a signed number as an unsigned one of the same width.
pub fn as_unsigned(n: i64) -> (r: u64)
    ensures
        r == unsigned(n),
{
    if n >= 0 {
        n as u64
    } else {
        (n as i128 + 0x1_0000_0000_0000_0000) as u64
    }
}

/// The moment that microseconds since the epoch denote. Before the epoch the
/// part of a second is dropped.
pub open spec fn moment(micros: i64) -> WallTime {
    if micros >= 0 {
        WallTime {
            secs: (micros as int / 1_000_000) as i64,
            nanos: (micros as int % 1_000_000 * 1_000) as u32,
        }
    } else {
        WallTime { secs: (-(-(micros as int) / 1_000_000)) as i64, nanos: 0 }
    }
}

/// Whether the calendar has the moment that microseconds denote.
pub open spec fn timed(micros: i64) -> bool {
    WallTime::exists_at(moment(micros).secs, moment(micros).nanos)
}

/// The tag that an event gives to what it adds.
pub open spec fn event_tag(micros: i64, agent: Seq<char>, hash: Seq<char>) -> Timestamp {
    Timestamp {
        wall: moment(micros),
        actor: text_hash(agent),
        event_hash: text_hash(hash),
        itc: unsigned(micros),
    }
}

/// Makes the tag that an event gives to what it adds, from the hashes of its
/// agent and of its own hash.
pub fn make_event_tag(micros: i64, actor: u64, event_hash: u64) -> (r: Timestamp)
    requires
        timed(micros),
    ensures
        r == (Timestamp { wall: moment(micros), actor, event_hash, itc: unsigned(micros) }),
{
    let (secs, nanos): (i64, u32) = if micros >= 0 {
        (micros / 1_000_000, (micros % 1_000_000 * 1_000) as u32)
    } else {
        let magnitude: u64 = (-(micros as i128)) as u64;
        (-((magnitude / 1_000_000) as i64), 0)
    };
    let wall = match utc_at(secs, nanos) {
        Some(wall) => wall,
        None => WallTime { secs, nanos },
    };
    Timestamp { wall, actor, event_hash, itc: as_unsigned(micros) }
}

/// Makes the tag that an event gives to what it adds.
pub fn tag_for_event(micros: i64, agent: &str, hash: &str) -> (r: Timestamp)
    requires
        timed(micros),
    ensures
        r == event_tag(micros, agent@, hash@),
{
    make_event_tag(micros, hash_str_to_u64(agent), hash_str_to_u64(hash))
}

/// The moment that microseconds since the epoch denote, read as unsigned.
pub open spec fn unsigned_moment(wall_ts: u64) -> WallTime {
    WallTime {
        secs: (wall_ts / 1_000_000) as i64,
        nanos: (wall_ts % 1_000_000 * 1_000) as u32,
    }
}

/// Whether a moment is the one that microseconds denote, or any moment where
/// the calendar has none.
pub open spec fn moment_or_any(wall_ts: u64, wall: WallTime) -> bool {
    let at = unsigned_moment(wall_ts);
    if WallTime::exists_at(at.secs, at.nanos) {
        wall == at
    } else {
        WallTime::exists_at(wall.secs, wall.nanos)
    }
}

/// The moment that microseconds denote, or the present one where the calendar
/// has none.
pub fn wall_time_of(wall_ts: u64) -> (r: WallTime)
    ensures
        moment_or_any(wall_ts, r),
{
    let secs = (wall_ts / 1_000_000) as i64;
    let nanos = (wall_ts % 1_000_000 * 1_000) as u32;
    match utc_at(secs, nanos) {
        Some(wall) => wall,
        None => utc_now(),
    }
}

/// The tag of a value that an event adds to an item.
pub open spec fn item_tag(
    wall_ts: u64,
    wall: WallTime,
    agent: Seq<char>,
    hash: Seq<char>,
    value: Seq<char>,
) -> Timestamp {
    Timestamp {
        wall,
        actor: text_hash(agent),
        event_hash: pair_hash(hash, value),
        itc: wall_ts,
    }
}

/// Makes the tag of a value that an event adds to an item.
pub fn make_orset_tag(
    wall_ts: u64,
    wall: WallTime,
    agent: &str,
    event_hash: &str,
    suffix: &str,
) -> (r: Timestamp)
    ensures
        r == item_tag(wall_ts, wall, agent@, event_hash@, suffix@),
{
    Timestamp {
        wall,
        actor: hash_str_to_u64(agent),
        event_hash: hash_pair(event_hash, suffix),
        itc: wall_ts,
    }
}

/// An identity split a number of times, each time the half that a bit chooses.
pub open spec fn split_along(id: Id, bits: u64, times: nat) -> Id
    decreases times,
{
    if times == 0 {
        id
    } else {
        split_along(
            if bits % 2 == 0 {
                halves(id).0
            } else {
                halves(id).1
            },
            bits / 2,
            (times - 1) as nat,
        )
    }
}

/// The stamp that bits choose: one event in one of 256 parts of the interval.
pub open spec fn bit_stamp(bits: u64) -> Stamp {
    let id = split_along(Id::One, bits, 8);
    Stamp { id, event: bumped(id, Counts::Leaf(0)) }
}

/// Makes the stamp that bits choose.
pub fn stamp_from_bits(bits: u64) -> (r: Stamp)
    ensures
        r == bit_stamp(bits),
        r.wf(),
{
    let mut stamp = Stamp::seed();
    let mut rest = bits;
    let mut left: usize = 8;
    while left > 0
        invariant
            left <= 8,
            stamp.event == Counts::Leaf(0),
            split_along(stamp.id, rest, left as nat) == split_along(Id::One, bits, 8),
        decreases left,
    {
        let (a, b) = stamp.fork();
        stamp = if rest % 2 == 0 {
            a
        } else {
            b
        };
        rest = rest / 2;
        left -= 1;
    }
    stamp.event();
    stamp
}

/// Derives a stamp from the hash of an event. One hash always gives one stamp.
pub fn derive_stamp_from_hash(event_hash: &str) -> (r: Stamp)
    ensures
        r == bit_stamp(text_hash(event_hash@)),
        r.wf(),
{
    stamp_from_bits(hash_str_to_u64(event_hash))
}

/// The lowest bits of a number, the lowest first.
spec fn low_bits(bits: u64, times: nat) -> Seq<bool>
    decreases times,
{
    if times == 0 {
        Seq::empty()
    } else {
        seq![bits % 2 != 0] + low_bits(bits / 2, (times - 1) as nat)
    }
}

/// The identity that owns what lies at the end of some turns.
spec fn along(turns: Seq<bool>) -> Id
    decreases turns.len(),
{
    if turns.len() == 0 {
        Id::One
    } else if turns[0] {
        Id::Node(Box::new(Id::Zero), Box::new(along(turns.drop_first())))
    } else {
        Id::Node(Box::new(along(turns.drop_first())), Box::new(Id::Zero))
    }
}

proof fn lemma_halves_of_turns(turns: Seq<bool>)
    ensures
        halves(along(turns)) == (along(turns.push(false)), along(turns.push(true))),
    decreases turns.len(),
{
    let left = turns.push(false);
    let right = turns.push(true);
    if turns.len() == 0 {
        assert(along(left.drop_first()) == Id::One);
        assert(along(right.drop_first()) == Id::One);
    } else {
        lemma_halves_of_turns(turns.drop_first());
        assert(left.drop_first() =~= turns.drop_first().push(false));
        assert(right.drop_first() =~= turns.drop_first().push(true));
        assert(along(turns.drop_first()) != Id::Zero);
    }
}

proof fn lemma_split_is_along(turns: Seq<bool>, bits: u64, times: nat)
    ensures
        split_along(along(turns), bits, times) == along(turns + low_bits(bits, times)),
    decreases times,
{
    if times == 0 {
        assert(turns + low_bits(bits, times) =~= turns);
    } else {
        let next = turns.push(bits % 2 != 0);
        lemma_halves_of_turns(turns);
        lemma_split_is_along(next, bits / 2, (times - 1) as nat);
        assert(next + low_bits(bits / 2, (times - 1) as nat) =~= turns + low_bits(bits, times));
    }
}

/// Whether a path takes the given turns from a depth on.
spec fn takes(path: Path, depth: nat, turns: Seq<bool>) -> bool {
    forall|i: int| 0 <= i < turns.len() ==> path((depth + i) as nat) == #[trigger] turns[i]
}

proof fn lemma_bumped_height(turns: Seq<bool>, path: Path, depth: nat)
    ensures
        bumped(along(turns), Counts::Leaf(0)).height(path, depth) == if takes(path, depth, turns) {
            1nat
        } else {
            0nat
        },
    decreases turns.len(),
{
    if turns.len() > 0 {
        let rest = turns.drop_first();
        lemma_bumped_height(rest, path, depth + 1);
        if takes(path, depth, turns) {
            assert(path((depth + 0) as nat) == turns[0]);
            assert forall|i: int| 0 <= i < rest.len() implies path((depth + 1 + i) as nat)
                == #[trigger] rest[i] by {
                assert(rest[i] == turns[i + 1]);
                assert(path((depth + (i + 1)) as nat) == turns[i + 1]);
            }
        } else if path(depth) == turns[0] {
            let i = choose|i: int|
                0 <= i < turns.len() && path((depth + i) as nat) != #[trigger] turns[i];
            assert(i != 0);
            assert(rest[i - 1] == turns[i]);
            assert(path((depth + 1 + (i - 1)) as nat) != rest[i - 1]);
        } else {
            assert(path((depth + 0) as nat) != turns[0]);
        }
        assert(bumped(Id::Zero, Counts::Leaf(0)) == Counts::Leaf(0));
        assert(Counts::Leaf(0).height(path, depth + 1) == 0);
        let below = bumped(along(rest), Counts::Leaf(0));
        let whole = bumped(along(turns), Counts::Leaf(0));
        if turns[0] {
            assert(whole == Counts::Node(0, Box::new(Counts::Leaf(0)), Box::new(below)));
        } else {
            assert(whole == Counts::Node(0, Box::new(below), Box::new(Counts::Leaf(0))));
        }
    }
}

proof fn lemma_low_bits_len(bits: u64, times: nat)
    ensures
        low_bits(bits, times).len() == times,
    decreases times,
{
    if times > 0 {
        lemma_low_bits_len(bits / 2, (times - 1) as nat);
    }
}

/// Two to a power.
spec fn power_of_two(n: nat) -> nat
    decreases n,
{
    if n == 0 {
        1
    } else {
        2 * power_of_two((n - 1) as nat)
    }
}

proof fn lemma_low_bits_tell(x: u64, y: u64, times: nat)
    requires
        low_bits(x, times) == low_bits(y, times),
    ensures
        power_of_two(times) > 0,
        x as int % power_of_two(times) as int == y as int % power_of_two(times) as int,
    decreases times,
{
    if times > 0 {
        let n = (times - 1) as nat;
        let half = power_of_two(n) as int;
        let a = low_bits(x, times);
        let b = low_bits(y, times);
        assert(a[0] == (x % 2 != 0) && b[0] == (y % 2 != 0));
        assert(a.drop_first() =~= low_bits(x / 2, n));
        assert(b.drop_first() =~= low_bits(y / 2, n));
        lemma_low_bits_tell(x / 2, y / 2, n);
        lemma_mod_breakdown(x as int, 2, half);
        lemma_mod_breakdown(y as int, 2, half);
    }
}

/// Numbers that differ in their lowest eight bits give concurrent stamps.
pub proof fn different_bits_give_concurrent_stamps(x: u64, y: u64)
    requires
        x % 256 != y % 256,
    ensures
        !bit_stamp(x).below(bit_stamp(y)),
        !bit_stamp(y).below(bit_stamp(x)),
{
    if low_bits(x, 8) == low_bits(y, 8) {
        lemma_low_bits_tell(x, y, 8);
        assert(power_of_two(8) == 256) by {
            reveal_with_fuel(power_of_two, 9);
        }
    }
    lemma_not_below(x, y);
    lemma_not_below(y, x);
}

/// Of two stamps that bits choose, none comes before the other: they are
/// concurrent or the same.
pub proof fn bit_stamps_are_concurrent_or_same(x: u64, y: u64)
    ensures
        bit_stamp(x) == bit_stamp(y) || (!bit_stamp(x).below(bit_stamp(y)) && !bit_stamp(y).below(
            bit_stamp(x),
        )),
{
    if low_bits(x, 8) == low_bits(y, 8) {
        assert(along(Seq::empty()) == Id::One);
        lemma_split_is_along(Seq::empty(), x, 8);
        lemma_split_is_along(Seq::empty(), y, 8);
    } else {
        lemma_not_below(x, y);
        lemma_not_below(y, x);
    }
}

proof fn lemma_bit_stamp_height(bits: u64, path: Path)
    ensures
        bit_stamp(bits).event.height(path, 0) == if takes(path, 0, low_bits(bits, 8)) {
            1nat
        } else {
            0nat
        },
{
    assert(along(Seq::empty()) == Id::One);
    lemma_split_is_along(Seq::empty(), bits, 8);
    assert(Seq::empty() + low_bits(bits, 8) =~= low_bits(bits, 8));
    lemma_bumped_height(low_bits(bits, 8), path, 0);
}

proof fn lemma_not_below(x: u64, y: u64)
    requires
        low_bits(x, 8) != low_bits(y, 8),
    ensures
        !bit_stamp(x).below(bit_stamp(y)),
{
    let a = low_bits(x, 8);
    let b = low_bits(y, 8);
    lemma_low_bits_len(x, 8);
    lemma_low_bits_len(y, 8);
    assert(!(a =~= b));
    let i = choose|i: int| 0 <= i < 8 && a[i] != b[i];
    let path: Path = |depth: nat| a[depth as int];
    lemma_bit_stamp_height(x, path);
    lemma_bit_stamp_height(y, path);
    assert(takes(path, 0, a));
    assert(path((0 + i) as nat) != b[i]);
    assert(bit_stamp(x).event.height(path, 0) == 1);
    assert(bit_stamp(y).event.height(path, 0) == 0);
}

/// The stamp of an event comes after that of a register that nothing wrote.
pub proof fn bit_stamps_come_after_the_seed(bits: u64)
    ensures
        (Stamp { id: Id::One, event: Counts::Leaf(0) }).below(bit_stamp(bits)),
        !bit_stamp(bits).below(Stamp { id: Id::One, event: Counts::Leaf(0) }),
{
    let a = low_bits(bits, 8);
    let path: Path = |depth: nat| a[depth as int];
    lemma_bit_stamp_height(bits, path);
    assert(takes(path, 0, a));
    assert(bit_stamp(bits).event.height(path, 0) == 1);
}

/// The tag of an event tells when it was: the seconds and nanoseconds of the tag are
/// the microseconds of the event, and its clock is the microseconds themselves. Agent
/// and hash are in it as their own hashes.
pub proof fn tag_tells_its_event(micros: i64, agent: Seq<char>, hash: Seq<char>)
    requires
        micros >= 0,
    ensures
        ({
            let tag = event_tag(micros, agent, hash);
            &&& tag.wall.secs * 1_000_000 + tag.wall.nanos / 1_000 == micros
            &&& tag.wall.nanos < 1_000_000_000
            &&& tag.wall.nanos % 1_000 == 0
            &&& tag.itc == micros
            &&& tag.actor == text_hash(agent)
            &&& tag.event_hash == text_hash(hash)
        }),
{
    let m = micros as int;
    assert(m % 1_000_000 * 1_000 / 1_000 == m % 1_000_000) by (nonlinear_arith);
    assert(m / 1_000_000 * 1_000_000 + m % 1_000_000 == m) by (nonlinear_arith);
}

/// Tags go by time: that of an earlier event comes before that of a later one.
pub proof fn tags_go_by_time(
    a: i64,
    b: i64,
    agents: (Seq<char>, Seq<char>),
    hashes: (Seq<char>, Seq<char>),
)
    requires
        0 <= a < b,
    ensures
        event_tag(a, agents.0, hashes.0).earlier(event_tag(b, agents.1, hashes.1)),
{
    tag_tells_its_event(a, agents.0, hashes.0);
    tag_tells_its_event(b, agents.1, hashes.1);
}

/// The moment of an unsigned time is the time.
pub proof fn moment_is_the_time(wall_ts: u64)
    ensures
        ({
            let at = unsigned_moment(wall_ts);
            &&& at.secs * 1_000_000 + at.nanos / 1_000 == wall_ts
            &&& at.nanos < 1_000_000_000
            &&& at.nanos % 1_000 == 0
        }),
{
    let m = wall_ts as int;
    assert(m % 1_000_000 * 1_000 / 1_000 == m % 1_000_000) by (nonlinear_arith);
    assert(m / 1_000_000 * 1_000_000 + m % 1_000_000 == m) by (nonlinear_arith);
}

/// An unsigned time keeps what a signed one is: itself, or, below zero, what is
/// missing to the first number that does not fit.
pub proof fn unsigned_keeps_the_number(n: i64)
    ensures
        n >= 0 ==> unsigned(n) == n,
        n < 0 ==> unsigned(n) - n == 0x1_0000_0000_0000_0000,
{
}

}
