use vstd::prelude::*;

verus! {

/// Process-wide configuration for a core.
///
/// `high_watermark` is the resident-byte threshold that triggers an eviction
/// sweep; `low_watermark` is the target resident size after a sweep. A valid
/// configuration has `low_watermark < high_watermark`.
pub struct UfoCoreConfig {
    /// Directory name for the spill area that holds written-back chunks.
    pub writeback_temp_path: String,
    /// Resident-byte threshold that triggers eviction.
    pub high_watermark: usize,
    /// Target resident bytes after an eviction sweep.
    pub low_watermark: usize,
}

impl UfoCoreConfig {
    /// The configuration invariant: the low watermark lies strictly below the
    /// high watermark.
    pub open spec fn wf(self) -> bool {
        self.low_watermark < self.high_watermark
    }

    /// Checks the watermark invariant.
    pub fn is_valid(&self) -> (r: bool)
        ensures
            r == self.wf(),
    {
        self.low_watermark < self.high_watermark
    }
}

} // verus!
