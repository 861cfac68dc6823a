//! Bulk test-data generator core: derives the exact byte content of a
//! generated file from a fill string, a total size and a write-chunk size,
//! parses human-readable size expressions, and lays out the per-file jobs
//! of a run.

use vstd::prelude::*;

pub mod dispatch;
pub mod job;
pub mod size;

verus! {

/// A fatal configuration failure, detected before any file is touched.
#[derive(Debug, Clone, Copy, PartialEq, Eq, Structural)]
pub enum Error {
    /// The size expression is not digits followed by a recognized unit suffix.
    InvalidSizeFormat,
    /// The size expression denotes a byte count too large to represent.
    SizeOverflow,
    /// The fill string is empty or longer than the chunk size, or the chunk
    /// size is zero.
    ConfigurationError,
}

} // verus!
