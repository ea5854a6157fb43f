//! Task identities and their standard refresh intervals.

use vstd::prelude::*;

verus! {

/// Milliseconds in one second; all times in this crate are in milliseconds.
pub const SECOND: u64 = 1000;

/// Identity of a periodic task. The set is closed: every dispatch over it is
/// an exhaustive `match`.
#[derive(Clone, Copy, Debug, PartialEq, Eq, Hash, Structural)]
pub enum Task {
    /// The wall clock.
    Time,
    /// The battery charge.
    Battery,
    /// The share of memory in use.
    Memory,
    /// The CPU load.
    CpuLoad,
}

impl Task {
    /// Refresh interval of the task in the standard registry, in milliseconds.
    pub open spec fn standard_interval(self) -> nat {
        match self {
            Task::Time => 1000,
            Task::Battery => 60000,
            Task::Memory => 1000,
            Task::CpuLoad => 6000,
        }
    }

    /// Refresh interval of the task in the standard registry, in milliseconds.
    pub fn interval(self) -> (ms: u64)
        ensures
            ms == self.standard_interval(),
            ms > 0,
    {
        match self {
            Task::Time => SECOND,
            Task::Battery => 60 * SECOND,
            Task::Memory => SECOND,
            Task::CpuLoad => 6 * SECOND,
        }
    }
}

} // verus!
