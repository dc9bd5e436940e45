//! Sizing parameters of the store.

use vstd::prelude::*;

verus! {

/// The sizes the store is configured with.
#[derive(Debug, Clone, Copy, PartialEq, Eq, Structural)]
pub struct Config {
    /// Bytes of each commit-log segment.
    pub commit_log_file_size: u64,
    /// Longest delay, in seconds, that a message may ask for.
    pub max_delay_time: u32,
    /// Bytes of each consume-queue segment.
    pub consume_queue_file_size: u64,
}

impl Config {
    /// Whether segments of these sizes can hold anything: a commit-log
    /// segment needs at least one byte and a consume-queue segment room for
    /// its footer and one record.
    pub fn is_valid(&self) -> (r: bool)
        ensures
            r == (self.commit_log_file_size > 0 && self.consume_queue_file_size >= 32),
    {
        self.commit_log_file_size > 0 && self.consume_queue_file_size >= 32
    }
}

} // verus!
