//! Per-node timing state: a priority tier and a pause flag.

use vstd::prelude::*;
use crate::scheduler::TimingPriority;

verus! {

/// The timing state every node carries: which tier of the scheduler
/// updates it, and whether updates are currently suspended.
#[derive(Debug, Clone, Copy, PartialEq, Eq, Structural)]
pub struct TimingProperties {
    pub priority: TimingPriority,
    pub paused: bool,
}

impl TimingProperties {
    pub fn new() -> (r: TimingProperties)
        ensures
            r.priority == TimingPriority::Normal,
            !r.paused,
    {
        TimingProperties { priority: TimingPriority::Normal, paused: false }
    }

    pub fn pause(&mut self, paused: bool)
        ensures
            *final(self) == (TimingProperties { paused, ..*old(self) }),
    {
        self.paused = paused;
    }

    pub fn paused(&self) -> (r: bool)
        ensures
            r == self.paused,
    {
        self.paused
    }

    pub fn set_priority(&mut self, priority: TimingPriority)
        ensures
            *final(self) == (TimingProperties { priority, ..*old(self) }),
    {
        self.priority = priority;
    }
}

} // verus!
