//! The task registry: which tasks run, and at what interval.

use crate::task::Task;
use vstd::prelude::*;

verus! {

/// Why a configuration was rejected.
#[derive(Clone, Copy, Debug, PartialEq, Eq, Structural)]
pub enum ConfigError {
    /// The registry names no task.
    EmptyRegistry,
    /// A refresh interval of zero was asked for.
    MalformedInterval,
    /// The task is registered already.
    DuplicateTask,
}

/// Any set of tasks is finite and has at most four members.
pub proof fn lemma_task_set_bounded(tasks: Set<Task>)
    ensures
        tasks.finite(),
        tasks.len() <= 4,
{
    let all = Set::<Task>::empty().insert(Task::Time).insert(Task::Battery).insert(
        Task::Memory,
    ).insert(Task::CpuLoad);
    assert(tasks.subset_of(all)) by {
        assert forall|task: Task| tasks.contains(task) implies all.contains(task) by {
            match task {
                Task::Time => {},
                Task::Battery => {},
                Task::Memory => {},
                Task::CpuLoad => {},
            }
        }
    }
    vstd::set_lib::lemma_len_subset(tasks, all);
}

/// The registered interval of each task: positive everywhere.
pub open spec fn intervals_valid(intervals: Map<Task, nat>) -> bool {
    forall|task: Task| intervals.dom().contains(task) ==> #[trigger] intervals[task] > 0
}

/// The fixed set of tasks of a scheduler, each with its refresh interval in
/// milliseconds. No task is registered twice, and no interval is zero.
pub struct Registry {
    time: Option<u64>,
    battery: Option<u64>,
    memory: Option<u64>,
    cpu_load: Option<u64>,
}

impl View for Registry {
    type V = Map<Task, nat>;

    /// The interval of each registered task.
    open spec fn view(&self) -> Map<Task, nat> {
        Map::new(|task: Task| self.slot(task) is Some, |task: Task| self.slot(task)->0 as nat)
    }
}

impl Registry {
    /// The entry of `task`, if it is registered.
    pub closed spec fn slot(&self, task: Task) -> Option<u64> {
        match task {
            Task::Time => self.time,
            Task::Battery => self.battery,
            Task::Memory => self.memory,
            Task::CpuLoad => self.cpu_load,
        }
    }

    #[verifier::type_invariant]
    spec fn intervals_positive(&self) -> bool {
        &&& self.time matches Some(interval) ==> interval > 0
        &&& self.battery matches Some(interval) ==> interval > 0
        &&& self.memory matches Some(interval) ==> interval > 0
        &&& self.cpu_load matches Some(interval) ==> interval > 0
    }

    /// A registry without tasks.
    pub fn new() -> (registry: Registry)
        ensures
            registry@ == Map::<Task, nat>::empty(),
    {
        let registry = Registry { time: None, battery: None, memory: None, cpu_load: None };
        assert(registry@ =~= Map::<Task, nat>::empty());
        registry
    }

    /// The registry of all four tasks at their standard intervals.
    pub fn standard() -> (registry: Registry)
        ensures
            registry@ == Map::new(|task: Task| true, |task: Task| task.standard_interval()),
    {
        let registry = Registry {
            time: Some(Task::Time.interval()),
            battery: Some(Task::Battery.interval()),
            memory: Some(Task::Memory.interval()),
            cpu_load: Some(Task::CpuLoad.interval()),
        };
        assert(registry@ =~= Map::new(|task: Task| true, |task: Task| task.standard_interval()));
        registry
    }

    /// The interval of `task`, if it is registered.
    pub fn interval_of(&self, task: Task) -> (interval: Option<u64>)
        ensures
            interval is Some == self@.dom().contains(task),
            interval matches Some(ms) ==> ms > 0 && self@[task] == ms,
    {
        proof {
            use_type_invariant(self);
        }
        match task {
            Task::Time => self.time,
            Task::Battery => self.battery,
            Task::Memory => self.memory,
            Task::CpuLoad => self.cpu_load,
        }
    }

    /// Whether `task` is registered.
    pub fn contains(&self, task: Task) -> (found: bool)
        ensures
            found == self@.dom().contains(task),
    {
        self.interval_of(task).is_some()
    }

    /// Registers `task` with a refresh interval in milliseconds. An interval
    /// of zero is rejected, and so is a task that is registered already.
    pub fn register(&mut self, task: Task, interval: u64) -> (result: Result<(), ConfigError>)
        ensures
            match result {
                Ok(_) => interval > 0 && !old(self)@.dom().contains(task) && final(self)@ == old(
                    self,
                )@.insert(task, interval as nat),
                Err(ConfigError::MalformedInterval) => interval == 0 && final(self)@ == old(self)@,
                Err(ConfigError::DuplicateTask) => interval > 0 && old(self)@.dom().contains(task)
                    && final(self)@ == old(self)@,
                Err(ConfigError::EmptyRegistry) => false,
            },
            intervals_valid(final(self)@),
    {
        proof {
            use_type_invariant(&*self);
            assert forall|other: Task| self@.dom().contains(other) implies #[trigger] self@[other]
                > 0 by {
                assert(self.slot(other) is Some);
            }
        }
        if interval == 0 {
            return Err(ConfigError::MalformedInterval);
        }
        if self.contains(task) {
            return Err(ConfigError::DuplicateTask);
        }
        let mut time = self.time;
        let mut battery = self.battery;
        let mut memory = self.memory;
        let mut cpu_load = self.cpu_load;
        match task {
            Task::Time => {
                time = Some(interval);
            },
            Task::Battery => {
                battery = Some(interval);
            },
            Task::Memory => {
                memory = Some(interval);
            },
            Task::CpuLoad => {
                cpu_load = Some(interval);
            },
        }
        let updated = Registry { time, battery, memory, cpu_load };
        assert(updated@ =~= old(self)@.insert(task, interval as nat));
        *self = updated;
        Ok(())
    }

    /// The number of registered tasks.
    pub fn len(&self) -> (count: usize)
        ensures
            count == self@.dom().len(),
            count <= 4,
    {
        let mut count: usize = 0;
        let ghost mut seen = Set::<Task>::empty();
        if self.time.is_some() {
            count = count + 1;
            proof {
                seen = seen.insert(Task::Time);
            }
        }
        if self.battery.is_some() {
            count = count + 1;
            proof {
                seen = seen.insert(Task::Battery);
            }
        }
        if self.memory.is_some() {
            count = count + 1;
            proof {
                seen = seen.insert(Task::Memory);
            }
        }
        if self.cpu_load.is_some() {
            count = count + 1;
            proof {
                seen = seen.insert(Task::CpuLoad);
            }
        }
        proof {
            assert(seen =~= self@.dom()) by {
                assert forall|task: Task| seen.contains(task) == self@.dom().contains(task) by {
                    match task {
                        Task::Time => {},
                        Task::Battery => {},
                        Task::Memory => {},
                        Task::CpuLoad => {},
                    }
                }
            }
        }
        count
    }

    /// Whether no task is registered.
    pub fn is_empty(&self) -> (empty: bool)
        ensures
            empty == (self@ == Map::<Task, nat>::empty()),
            empty == (self@.dom().len() == 0),
    {
        let count = self.len();
        proof {
            lemma_task_set_bounded(self@.dom());
            if count == 0 {
                assert(self@.dom() =~= Set::<Task>::empty());
                assert(self@ =~= Map::<Task, nat>::empty());
            } else {
                assert(!(self@.dom() =~= Set::<Task>::empty()));
            }
        }
        count == 0
    }
}

} // verus!
