//! The error taxonomy of the backup pipeline.

use vstd::prelude::*;

verus! {

/// What can go wrong across the pipeline.
///
/// `InvalidArchive` is the only error surfaced before any destructive step;
/// the others describe failures that are logged and absorbed.
#[derive(Clone, Copy, Debug, PartialEq, Eq, Structural)]
pub enum BackupError {
    /// The uploaded bytes are neither a tar archive nor a gzip-wrapped one.
    InvalidArchive,
    /// A per-entry read, write, or delete failed.
    IoFailure,
    /// Reconnecting a dependent resource after restore failed.
    ResourceReinitFailure,
    /// The streaming consumer went away or the producer failed mid-stream.
    StreamTerminated,
}

} // verus!
