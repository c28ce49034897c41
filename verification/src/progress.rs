//! Reporting and batching arithmetic shared by discovery and hashing.
//!
//! Both subsystems interleave cancellation checks and progress reports
//! with their work at fixed intervals: discovery reports whenever the
//! match count crosses a granularity of 100, and the hasher splits its
//! input into batches of 100 paths. The decisions of when a report is
//! due and where a batch ends are pure arithmetic and are verified
//! here; the caller supplies the wall clock and the callbacks.

use vstd::prelude::*;

verus! {

/// A progress report is due every time this many files have been matched
/// or processed; it is also the number of paths in one hashing batch.
pub const REPORT_INTERVAL: u64 = 100;

/// Number of paths handed to the workers between two cancellation checks.
pub const BATCH_SIZE: usize = 100;

/// True exactly when `matched` sits on a reporting boundary: a positive
/// multiple of [`REPORT_INTERVAL`].
pub fn at_report_point(matched: u64) -> (r: bool)
    ensures
        r == (matched > 0 && matched % REPORT_INTERVAL == 0),
{
    matched > 0 && matched % REPORT_INTERVAL == 0
}

/// True when a final report is still owed once work has completed:
/// the count was never reported at a boundary, so it has not been seen.
pub fn final_report_due(matched: u64) -> (r: bool)
    ensures
        r == !(matched > 0 && matched % REPORT_INTERVAL == 0),
{
    !(matched > 0 && matched % REPORT_INTERVAL == 0)
}

/// End (exclusive) of the batch that starts at `start` in a list of
/// `total` items: one full batch, or whatever remains.
pub fn batch_end(total: usize, start: usize) -> (end: usize)
    requires
        start < total,
    ensures
        end == if start + BATCH_SIZE <= total {
            start + BATCH_SIZE
        } else {
            total as int
        },
        start < end <= total,
{
    if total - start > BATCH_SIZE {
        start + BATCH_SIZE
    } else {
        total
    }
}

} // verus!
