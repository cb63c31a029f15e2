//! An event-sourced work item tracker.

pub mod clock;
pub mod crdt;
pub mod dag;
pub mod db;
pub mod error;
pub mod event;
pub mod model;
pub mod shard;
pub mod text;
