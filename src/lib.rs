//! Storage core of a delay-message broker: message framing, segmented
//! memory-mapped logs with recovery, per-topic index records and the
//! expiry decisions of the delay scheduler.

pub mod commit_log;
pub mod config;
pub mod consume_queue;
pub mod crc_check_util;
pub mod cust_error;
pub mod data_process_util;
pub mod le_bytes;
pub mod message;
pub mod mmap;
pub mod segment;
pub mod start_offset;
