//! Progress accounting for one file's transfer.
//!
//! Progress is reported as a whole-number percentage of bytes processed
//! against the file's declared size.  Reports are monotonically
//! non-decreasing and repeats at the same percentage are suppressed: an
//! update yields a value only when the percentage has advanced.

use vstd::prelude::*;

verus! {

/// The whole-number percentage of `bytes` out of `total`.
pub open spec fn percent_spec(bytes: int, total: int) -> int
    recommends
        total > 0,
{
    bytes * 100 / total
}

/// Tracks the last percentage reported for the file being moved.
pub struct ProgressTracker {
    /// The highest percentage reported so far.
    pub last_percent: u8,
}

impl ProgressTracker {
    /// A tracker that has reported nothing yet.
    pub fn new() -> (r: ProgressTracker)
        ensures
            r.last_percent == 0,
    {
        ProgressTracker { last_percent: 0 }
    }

    /// Account for `bytes_processed` of `total_bytes` having moved.
    /// Yields the new percentage exactly when it is strictly greater
    /// than the last one reported, so reports never decrease and never
    /// repeat; the caller prints what is yielded.
    pub fn update(&mut self, bytes_processed: u64, total_bytes: u64) -> (r: Option<u8>)
        requires
            total_bytes > 0,
            bytes_processed <= total_bytes,
        ensures
            percent_spec(bytes_processed as int, total_bytes as int)
                > old(self).last_percent ==> r == Some(
                percent_spec(bytes_processed as int, total_bytes as int) as u8,
            ) && final(self).last_percent == percent_spec(
                bytes_processed as int,
                total_bytes as int,
            ),
            percent_spec(bytes_processed as int, total_bytes as int) <= old(self).last_percent
                ==> r is None && final(self).last_percent == old(self).last_percent,
            r matches Some(p) ==> p > old(self).last_percent && p <= 100,
    {
        proof {
            assert((bytes_processed as int) * 100 / (total_bytes as int) <= 100 && (
            bytes_processed as int) * 100 / (total_bytes as int) >= 0) by (nonlinear_arith)
                requires
                    0 < total_bytes as int,
                    0 <= bytes_processed as int <= total_bytes as int,
            ;
        }
        let percent_done = ((bytes_processed as u128) * 100 / (total_bytes as u128)) as u8;
        if percent_done > self.last_percent {
            self.last_percent = percent_done;
            Some(percent_done)
        } else {
            None
        }
    }

    /// A finished transfer always reads one hundred percent.
    pub fn finish(&self) -> (r: u8)
        ensures
            r == 100,
    {
        100
    }
}

} // verus!
