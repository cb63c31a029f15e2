//! Traces of merge decisions.

use crate::text::slice::{
    contains_text, lowered, str_ascii_lower, str_contains, str_eq, str_trim, trim,
};
use vstd::prelude::*;

verus! {

/// Tie-break stage that produced a strict last-write-wins winner.
#[derive(Clone, Copy, Debug, PartialEq, Eq, Structural)]
pub enum TieBreakStep {
    ItcCausal,
    WallTimestamp,
    AgentId,
    EventHash,
    Equal,
}

/// Structured trace payload for a single merge decision.
#[derive(Debug, PartialEq, Eq)]
pub struct MergeTrace {
    pub field: String,
    pub values: (String, String),
    pub winner: String,
    pub step: TieBreakStep,
    pub correlation_id: String,
    pub enabled: bool,
}

impl MergeTrace {
    /// The trace of a decision that was not traced.
    pub fn disabled() -> (r: Self)
        ensures
            r.field@ == Seq::<char>::empty(),
            r.values.0@ == Seq::<char>::empty(),
            r.values.1@ == Seq::<char>::empty(),
            r.winner@ == Seq::<char>::empty(),
            r.step == TieBreakStep::Equal,
            r.correlation_id@ == Seq::<char>::empty(),
            !r.enabled,
    {
        MergeTrace {
            field: String::new(),
            values: (String::new(), String::new()),
            winner: String::new(),
            step: TieBreakStep::Equal,
            correlation_id: String::new(),
            enabled: false,
        }
    }
}

impl Clone for MergeTrace {
    fn clone(&self) -> (r: Self)
        ensures
            r == *self,
    {
        MergeTrace {
            field: self.field.clone(),
            values: (self.values.0.clone(), self.values.1.clone()),
            winner: self.winner.clone(),
            step: self.step,
            correlation_id: self.correlation_id.clone(),
            enabled: self.enabled,
        }
    }
}

/// Whether a value of `BONES_DEBUG_MERGE` switches tracing on.
pub open spec fn debug_merge_on(value: Seq<char>) -> bool {
    let v = lowered(trim(value));
    v == "1"@ || v == "true"@ || v == "yes"@ || v == "on"@
}

/// Whether a value of `BONES_LOG` switches tracing on.
pub open spec fn log_level_on(value: Seq<char>) -> bool {
    contains_text(lowered(value), "debug"@) || contains_text(lowered(value), "trace"@)
}

/// Whether merges are traced, given the values of `BONES_DEBUG_MERGE` and
/// `BONES_LOG` where those are set.
///
/// Tracing is on when the first is one of `1`, `true`, `yes` and `on`, or when
/// the second contains `debug` or `trace`.
pub fn tracing_enabled_by(debug_merge: Option<&str>, log: Option<&str>) -> (r: bool)
    ensures
        r == ((debug_merge is Some && debug_merge_on(debug_merge->0@)) || (log is Some
            && log_level_on(log->0@))),
{
    if let Some(value) = debug_merge {
        let v = str_ascii_lower(str_trim(value));
        assert(v@ =~= lowered(trim(value@)));
        let v = v.as_str();
        if str_eq(v, "1") || str_eq(v, "true") || str_eq(v, "yes") || str_eq(v, "on") {
            return true;
        }
    }
    if let Some(value) = log {
        let v = str_ascii_lower(value);
        assert(v@ =~= lowered(value@));
        return str_contains(v.as_str(), "debug") || str_contains(v.as_str(), "trace");
    }
    false
}

}
