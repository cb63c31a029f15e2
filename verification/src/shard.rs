//! Event log files and their manifests.

use vstd::prelude::*;

verus! {

/// What a manifest says of an event log file.
#[derive(Debug, PartialEq, Eq)]
pub struct ShardManifest {
    /// Name of the event log file.
    pub shard_name: String,
    /// Number of events in the file.
    pub event_count: u64,
    /// Length of the file in bytes.
    pub byte_len: u64,
    /// Hash of the file, `blake3:<hex>`.
    pub file_hash: String,
}

impl Clone for ShardManifest {
    fn clone(&self) -> (r: Self)
        ensures
            r == *self,
    {
        ShardManifest {
            shard_name: self.shard_name.clone(),
            event_count: self.event_count,
            byte_len: self.byte_len,
            file_hash: self.file_hash.clone(),
        }
    }
}

}
