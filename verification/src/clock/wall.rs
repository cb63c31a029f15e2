//! Wall-clock time in UTC.

use chrono::{TimeZone, Utc};
use std::cmp::Ordering;
use vstd::prelude::*;

verus! {

/// A moment in UTC: whole seconds since the Unix epoch and the nanoseconds
/// after them.
#[derive(Clone, Copy, Debug, PartialEq, Eq, Hash, Structural, Ord)]
pub struct WallTime {
    pub secs: i64,
    pub nanos: u32,
}

/// The first second of the calendar, 1 January of the year -262143.
pub const FIRST_SECOND: i64 = -8_334_601_228_800;

/// The last second of the calendar, 31 December of the year 262142.
pub const LAST_SECOND: i64 = 8_210_266_876_799;

impl WallTime {
    /// Whether seconds and nanoseconds name a moment of the calendar. A leap
    /// second is written as nanoseconds past the last second of a minute.
    pub open spec fn exists_at(secs: i64, nanos: u32) -> bool {
        &&& FIRST_SECOND <= secs <= LAST_SECOND
        &&& nanos < 1_000_000_000 || (nanos < 2_000_000_000 && secs % 60 == 59)
    }

    /// Whether one moment lies before another.
    pub open spec fn earlier(self, other: WallTime) -> bool {
        self.secs < other.secs || (self.secs == other.secs && self.nanos < other.nanos)
    }

    /// Whether this moment lies before another.
    pub fn is_before(&self, other: &WallTime) -> (r: bool)
        ensures
            r == self.earlier(*other),
    {
        self.secs < other.secs || (self.secs == other.secs && self.nanos < other.nanos)
    }
}

impl PartialOrd for WallTime {
    fn partial_cmp(&self, other: &Self) -> (r: Option<Ordering>) {
        if self.is_before(other) {
            Some(Ordering::Less)
        } else if other.is_before(self) {
            Some(Ordering::Greater)
        } else {
            Some(Ordering::Equal)
        }
    }
}

impl vstd::std_specs::cmp::PartialOrdSpecImpl for WallTime {
    open spec fn obeys_partial_cmp_spec() -> bool {
        true
    }

    open spec fn partial_cmp_spec(&self, other: &Self) -> Option<Ordering> {
        if self.earlier(*other) {
            Some(Ordering::Less)
        } else if other.earlier(*self) {
            Some(Ordering::Greater)
        } else {
            Some(Ordering::Equal)
        }
    }
}

/// Calls `chrono::TimeZone::timestamp_opt` on `chrono::Utc`: the moment at the
/// given seconds and nanoseconds, `None` exactly where the calendar of that
/// crate has no such moment. Reading the moment back with `timestamp` and
/// `timestamp_subsec_nanos` gives the two numbers unchanged.
#[verifier::external_body]
pub(crate) fn utc_at(secs: i64, nanos: u32) -> (r: Option<WallTime>)
    ensures
        r == if WallTime::exists_at(secs, nanos) {
            Some(WallTime { secs, nanos })
        } else {
            None
        },
{
    match Utc.timestamp_opt(secs, nanos).single() {
        Some(t) => Some(WallTime { secs: t.timestamp(), nanos: t.timestamp_subsec_nanos() }),
        None => None,
    }
}

/// Calls `chrono::Utc::now`. Which moment it returns depends on the machine's
/// clock; whatever it is, the calendar has it.
#[verifier::external_body]
pub(crate) fn utc_now() -> (r: WallTime)
    ensures
        WallTime::exists_at(r.secs, r.nanos),
{
    let t = Utc::now();
    WallTime { secs: t.timestamp(), nanos: t.timestamp_subsec_nanos() }
}

}
