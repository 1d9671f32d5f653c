//! Bookkeeping for an allocation observer: how much memory is in use, and when
//! a change is large enough to be worth a line of output.

use vstd::prelude::*;

verus! {

/// A change in memory use below this many bytes is not reported.
pub const TRACKER_THRESHOLD: usize = 5242880;

/// Only every so many allocations is the memory use looked at.
pub const REPORT_INTERVAL: usize = 100000;

/// Counts allocations and the bytes they hold, and remembers the total that
/// was last reported.
#[derive(Clone, Copy, Debug, PartialEq, Eq, Structural)]
pub struct StdoutTracker {
    pub total: usize,
    pub counter: usize,
    pub prev_printed: usize,
}

/// The current total is more than the threshold away from the reported one.
pub open spec fn spec_far_apart(prev_printed: int, total: int) -> bool {
    prev_printed < total - TRACKER_THRESHOLD || prev_printed > total + TRACKER_THRESHOLD
}

/// The allocation that brings the counter to `counter` and the total to
/// `total` is reported.
pub open spec fn spec_reports(counter: int, prev_printed: int, total: int) -> bool {
    counter % (REPORT_INTERVAL as int) == 0 && spec_far_apart(prev_printed, total)
}

impl StdoutTracker {
    /// A tracker that has seen nothing.
    pub fn new() -> (t: Self)
        ensures
            t.total == 0,
            t.counter == 0,
            t.prev_printed == 0,
    {
        StdoutTracker { total: 0, counter: 0, prev_printed: 0 }
    }

    /// Records an allocation of `wrapped_size` bytes. Every
    /// `REPORT_INTERVAL`-th allocation is reported if the total has moved more
    /// than `TRACKER_THRESHOLD` bytes from the total reported last: the result
    /// is then the total in MiB, and that total is remembered.
    pub fn allocated(&mut self, wrapped_size: usize) -> (report: Option<usize>)
        requires
            old(self).counter < usize::MAX,
            old(self).total + wrapped_size <= usize::MAX,
        ensures
            final(self).counter == old(self).counter + 1,
            final(self).total == old(self).total + wrapped_size,
            spec_reports(
                final(self).counter as int,
                old(self).prev_printed as int,
                final(self).total as int,
            ) ==> report == Some((final(self).total / 1024 / 1024) as usize)
                && final(self).prev_printed == final(self).total,
            !spec_reports(
                final(self).counter as int,
                old(self).prev_printed as int,
                final(self).total as int,
            ) ==> report is None && final(self).prev_printed == old(self).prev_printed,
    {
        self.counter = self.counter + 1;
        self.total = self.total + wrapped_size;
        let total: usize = self.total;
        let prev: usize = self.prev_printed;
        if self.counter % REPORT_INTERVAL == 0 {
            let below: bool = total > TRACKER_THRESHOLD && prev < total - TRACKER_THRESHOLD;
            let above: bool = prev > TRACKER_THRESHOLD && prev - TRACKER_THRESHOLD > total;
            if below || above {
                self.prev_printed = total;
                return Some(total / 1024 / 1024);
            }
        }
        None
    }

    /// Records that `wrapped_size` bytes were given back.
    pub fn deallocated(&mut self, wrapped_size: usize)
        requires
            wrapped_size <= old(self).total,
        ensures
            final(self).total == old(self).total - wrapped_size,
            final(self).counter == old(self).counter,
            final(self).prev_printed == old(self).prev_printed,
    {
        self.total = self.total - wrapped_size;
    }
}

} // verus!
