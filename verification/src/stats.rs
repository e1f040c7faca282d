//! The counts of a run: how many files went into the artifact and how many
//! entries were passed over.

use vstd::prelude::*;

verus! {

/// `n`, or the largest count a counter holds where `n` is beyond it.
pub open spec fn clip(n: nat) -> u64 {
    if n > u64::MAX {
        u64::MAX
    } else {
        n as u64
    }
}

/// The counters of a run. They only ever grow, and stay at the largest value
/// they can hold once they reach it.
#[derive(Clone, Copy, Debug, PartialEq, Eq, Structural)]
pub struct RunStats {
    /// The files whose records were added to the artifact.
    pub processed_count: u64,
    /// The entries left out by a rule, and the files that could not be read.
    pub skipped_count: u64,
}

impl RunStats {
    /// The counters before anything was counted.
    pub fn new() -> (stats: RunStats)
        ensures
            stats.processed_count == 0,
            stats.skipped_count == 0,
    {
        RunStats { processed_count: 0, skipped_count: 0 }
    }

    /// Counts a file whose record was added.
    pub fn record_processed(&mut self)
        ensures
            final(self).processed_count == clip(old(self).processed_count as nat + 1),
            final(self).skipped_count == old(self).skipped_count,
            final(self).processed_count >= old(self).processed_count,
    {
        if self.processed_count < u64::MAX {
            self.processed_count = self.processed_count + 1;
        }
    }

    /// Counts an entry that was passed over.
    pub fn record_skipped(&mut self)
        ensures
            final(self).skipped_count == clip(old(self).skipped_count as nat + 1),
            final(self).processed_count == old(self).processed_count,
            final(self).skipped_count >= old(self).skipped_count,
    {
        if self.skipped_count < u64::MAX {
            self.skipped_count = self.skipped_count + 1;
        }
    }

    /// Whether the run produced nothing: a reason to warn, not an error.
    pub fn nothing_processed(&self) -> (nothing: bool)
        ensures
            nothing == (self.processed_count == 0),
    {
        self.processed_count == 0
    }
}

} // verus!
