//! Checksum helpers, under their older module name.

pub use crate::data_process_util::{crc32, crc_check};
