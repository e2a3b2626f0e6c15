//! Structured progress events emitted during reindex operations.

use vstd::prelude::*;

verus! {

/// A structured progress event emitted during reindex.
#[derive(Debug, Clone, PartialEq, Eq)]
pub enum ReindexProgress {
    /// Change detection started.
    DetectingChanges,
    /// Fell back to hash-based scanning (git unavailable).
    ScanningFallback,
    /// Change detection complete.
    ChangesDetected { created: usize, modified: usize, deleted: usize },
    /// No changes found.
    NoChanges,
    /// Waiting for the write lock (another operation is in progress).
    WaitingForLock,
    /// Reading and filtering changed files before indexing.
    PreparingFiles { current: usize, total: usize },
    /// Building a segment: file `files_done` of `files_total` processed.
    BuildingSegment { segment_id: u32, files_done: usize, files_total: usize },
    /// Writing tombstones for old file entries.
    Tombstoning { count: u32 },
    /// Segment compaction started.
    CompactingSegments { input_segments: usize },
    /// Reindex finished successfully.
    Complete { changes_applied: usize },
}

} // verus!
