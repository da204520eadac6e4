//! The progress estimate: a counter of completed work units and a total
//! that starts undefined and is set once discovery completes.
//!
//! Purely observational: a display reads it, and nothing gates
//! correctness on it. Sharing it across threads is its owner's affair.

use vstd::prelude::*;

verus! {

/// A count of completed work units with an optional total estimate.
pub struct ProgressTracker {
    /// How many work units have completed.
    pub completed: u64,
    /// The total expected, once known; undefined while discovery runs.
    pub total: Option<u64>,
}

impl ProgressTracker {
    /// A tracker in the indeterminate state: nothing done, total
    /// unknown.
    pub fn new() -> (r: ProgressTracker)
        ensures
            r.completed == 0,
            r.total is None,
    {
        ProgressTracker { completed: 0, total: None }
    }

    /// Sets the total once it becomes known; it may be revised as
    /// discovery proceeds.
    pub fn set_total(&mut self, total: u64)
        ensures
            final (self).total == Some(total),
            final (self).completed == old(self).completed,
    {
        self.total = Some(total);
    }

    /// Counts one more completed work unit, saturating rather than
    /// wrapping: the count is an estimate for display only.
    pub fn inc(&mut self)
        ensures
            final (self).completed == (if old(self).completed < u64::MAX {
                old(self).completed + 1
            } else {
                old(self).completed as int
            }),
            final (self).total == old(self).total,
    {
        if self.completed < u64::MAX {
            self.completed = self.completed + 1;
        }
    }
}

} // verus!
