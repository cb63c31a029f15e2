//! Work item fields and identifiers.

pub mod item;
pub mod item_id;
