//! The value store: the latest display value of each task.

use crate::task::Task;
use vstd::prelude::*;
use vstd::string::*;

verus! {

/// Why an update function could not produce a value.
#[derive(Clone, Copy, Debug, PartialEq, Eq, Structural)]
pub enum MetricError {
    /// The source of the metric could not be queried.
    Unavailable,
    /// The source answered with a reading that makes no sense.
    Malformed,
}

/// The placeholder shown for a task whose update failed.
pub const SENTINEL: &'static str = "???";

/// The characters of the placeholder.
pub open spec fn sentinel() -> Seq<char> {
    seq!['?', '?', '?']
}

/// What an update leaves in its task's slot: the value on success, the
/// placeholder on failure.
pub open spec fn outcome_text(outcome: Result<String, MetricError>) -> Seq<char> {
    match outcome {
        Ok(value) => value@,
        Err(_) => sentinel(),
    }
}

/// The placeholder as an owned text.
pub fn sentinel_text() -> (text: String)
    ensures
        text@ == sentinel(),
{
    proof {
        reveal_strlit("???");
        assert("???"@ =~= sentinel());
    }
    String::from_str(SENTINEL)
}

/// The latest display value of each task.
pub struct ValueStore {
    time: String,
    battery: String,
    memory: String,
    cpu_load: String,
}

impl View for ValueStore {
    type V = Map<Task, Seq<char>>;

    /// A total map from task to its current text.
    open spec fn view(&self) -> Map<Task, Seq<char>> {
        Map::new(|task: Task| true, |task: Task| self.text(task))
    }
}

impl ValueStore {
    /// The current text of `task`.
    pub closed spec fn text(&self, task: Task) -> Seq<char> {
        match task {
            Task::Time => self.time@,
            Task::Battery => self.battery@,
            Task::Memory => self.memory@,
            Task::CpuLoad => self.cpu_load@,
        }
    }

    /// A store in which every slot holds the placeholder.
    pub fn new() -> (store: ValueStore)
        ensures
            store@ == Map::new(|task: Task| true, |task: Task| sentinel()),
    {
        let store = ValueStore {
            time: sentinel_text(),
            battery: sentinel_text(),
            memory: sentinel_text(),
            cpu_load: sentinel_text(),
        };
        assert(store@ =~= Map::new(|task: Task| true, |task: Task| sentinel()));
        store
    }

    /// The current value of `task`.
    pub fn get(&self, task: Task) -> (value: &str)
        ensures
            value@ == self@[task],
    {
        match task {
            Task::Time => self.time.as_str(),
            Task::Battery => self.battery.as_str(),
            Task::Memory => self.memory.as_str(),
            Task::CpuLoad => self.cpu_load.as_str(),
        }
    }

    /// Replaces the value of `task` and of no other task.
    pub fn set(&mut self, task: Task, value: String)
        ensures
            final(self)@ == old(self)@.insert(task, value@),
    {
        match task {
            Task::Time => {
                self.time = value;
            },
            Task::Battery => {
                self.battery = value;
            },
            Task::Memory => {
                self.memory = value;
            },
            Task::CpuLoad => {
                self.cpu_load = value;
            },
        }
        assert(self@ =~= old(self)@.insert(task, value@));
    }

    /// Stores the outcome of an update of `task`: the value on success, the
    /// placeholder on failure. Every other slot keeps its value.
    pub fn record(&mut self, task: Task, outcome: Result<String, MetricError>)
        ensures
            final(self)@ == old(self)@.insert(task, outcome_text(outcome)),
            forall|other: Task| other != task ==> final(self)@[other] == old(self)@[other],
            outcome is Err ==> final(self)@[task] == sentinel(),
    {
        match outcome {
            Ok(value) => self.set(task, value),
            Err(_) => self.set(task, sentinel_text()),
        }
    }
}

} // verus!
