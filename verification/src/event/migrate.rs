//! Upgrading events from older formats of the log.

use crate::event::parser::CURRENT_VERSION;
use crate::event::Event;
use crate::text::decimal::{nat_text, u64_text};
use vstd::prelude::*;

verus! {

/// An event as an older format version holds it.
pub type RawEvent = Event;

/// Upgrades an event parsed from an older format to the current one; reports a
/// format version that is not known.
pub fn migrate_event(event: RawEvent, from_version: u32) -> (r: Result<Event, String>)
    ensures
        match r {
            Ok(e) => from_version == CURRENT_VERSION && e == event,
            Err(message) => from_version != CURRENT_VERSION && message@
                == "unknown format version "@ + nat_text(from_version as nat),
        },
{
    if from_version == 1 {
        Ok(migrate_v1_to_current(event))
    } else if from_version == CURRENT_VERSION {
        Ok(event)
    } else {
        let mut message = "unknown format version ".to_owned();
        message.append(u64_text(from_version as u64).as_str());
        Err(message)
    }
}

/// The first version is the current one, so nothing changes.
fn migrate_v1_to_current(event: RawEvent) -> (r: Event)
    ensures
        r == event,
{
    event
}

}
