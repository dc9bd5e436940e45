//! Failures in setting up a mapped segment.

use vstd::prelude::*;

verus! {

/// Why a segment could not be opened and mapped; each carries the system's
/// message.
#[derive(Debug, Clone, PartialEq, Eq)]
pub enum MmapError {
    /// The file could not be opened.
    OpenErr(String),
    /// The file could not be given its size.
    SetLenErr(String),
    /// The file could not be mapped.
    MmapErr(String),
}

} // verus!
