//! The scheduler: one event per registered task in a time-ordered schedule,
//! the value store, and the decisions of the wait/fire loop.
//!
//! The scheduler never sleeps, runs an update function or talks to a sink
//! itself. `step` says what is to be done next; the caller does it and, after
//! an update, reports the outcome with `complete`.

use crate::composer::{compose, status_text};
use crate::registry::{intervals_valid, ConfigError, Registry};
use crate::schedule::{is_earliest, Event, Schedule};
use crate::state::{
    firings, lemma_drift_free, lemma_no_starvation, lemma_run_keeps_valid, Firing, State,
};
use crate::task::Task;
use crate::values::{outcome_text, sentinel, MetricError, ValueStore};
use vstd::multiset::Multiset;
use vstd::prelude::*;

verus! {

/// Why an outcome was not accepted.
#[derive(Clone, Copy, Debug, PartialEq, Eq, Structural)]
pub enum SchedulerError {
    /// The outcome is for a task other than the one that is due first.
    NotNext,
    /// The next due time of the task does not fit the clock.
    TimeOverflow,
}

/// What the loop is to do next.
#[derive(Debug)]
pub enum Action {
    /// Run the update function of the named task and report its outcome.
    Refresh(Task),
    /// Hand this status line to the sink.
    Publish(String),
    /// Suspend for this many milliseconds.
    Sleep(u64),
}

/// The schedule holds exactly one event for each task that has a due time,
/// at that time, and no other event.
spec fn tracks(events: Multiset<Event>, due: Map<Task, u64>) -> bool {
    forall|e: Event|
        #[trigger] events.count(e) == (if due.dom().contains(e.task) && due[e.task] == e.due {
            1nat
        } else {
            0nat
        })
}

/// The periodic-task scheduler.
pub struct Scheduler {
    registry: Registry,
    schedule: Schedule,
    values: ValueStore,
    stale: bool,
    due: Ghost<Map<Task, u64>>,
    started: Ghost<nat>,
    history: Ghost<Seq<Firing>>,
}

impl View for Scheduler {
    type V = State;

    /// The scheduler as an abstract state.
    closed spec fn view(&self) -> State {
        State {
            intervals: self.registry@,
            due: Map::new(
                |task: Task| self.due@.dom().contains(task),
                |task: Task| self.due@[task] as nat,
            ),
            values: self.values@,
            stale: self.stale,
        }
    }
}

/// Puts the first event of `task` into a schedule under construction, if the
/// task is registered.
fn seed(
    registry: &Registry,
    schedule: &mut Schedule,
    task: Task,
    start: u64,
    due: Ghost<Map<Task, u64>>,
) -> (seeded: Ghost<Map<Task, u64>>)
    requires
        tracks(old(schedule)@, due@),
        !due@.dom().contains(task),
    ensures
        tracks(final(schedule)@, seeded@),
        registry@.dom().contains(task) ==> seeded@ == due@.insert(task, start) && registry@[task]
            > 0,
        !registry@.dom().contains(task) ==> seeded@ == due@,
{
    match registry.interval_of(task) {
        Some(_) => {
            let event = Event { due: start, task };
            schedule.push(event);
            let ghost seeded = due@.insert(task, start);
            proof {
                assert forall|e: Event| #[trigger]
                    schedule@.count(e) == (if seeded.dom().contains(e.task) && seeded[e.task]
                        == e.due {
                        1nat
                    } else {
                        0nat
                    }) by {
                    assert(old(schedule)@.count(e) == (if due@.dom().contains(e.task) && due@[e.task]
                        == e.due {
                        1nat
                    } else {
                        0nat
                    }));
                }
            }
            Ghost(seeded)
        },
        None => due,
    }
}

impl Scheduler {
    /// Well-formedness: the schedule holds exactly one event per registered
    /// task, there is at least one, every interval is positive, and the
    /// state is what the firings so far have made of the initial state.
    pub closed spec fn wf(&self) -> bool {
        &&& self.due@.dom() == self.registry@.dom()
        &&& exists|task: Task| self.due@.dom().contains(task)
        &&& intervals_valid(self.registry@)
        &&& tracks(self.schedule@, self.due@)
        &&& self.origin().admits(self.history@)
        &&& self.origin().after(self.history@).due == self@.due
        &&& self.origin().after(self.history@).values == self@.values
    }

    /// The time at which the scheduler was started: every task was first
    /// due then.
    pub closed spec fn started(&self) -> nat {
        self.started@
    }

    /// The firings since the start, in order.
    pub closed spec fn history(&self) -> Seq<Firing> {
        self.history@
    }

    /// The state in which the scheduler was started.
    pub open spec fn origin(&self) -> State {
        State::initial(self@.intervals, self.started())
    }

    /// The event that is due first: the one `step` asks to refresh and
    /// `complete` replaces. Among events due at the same time any one may
    /// be it.
    pub closed spec fn next(&self) -> Event {
        self.schedule.front()
    }

    /// A well-formed scheduler is in a valid state, and that state is what
    /// its history has made of the state in which it was started: the
    /// history is a run that always took a task due first.
    pub proof fn lemma_wf(&self)
        requires
            self.wf(),
        ensures
            self@.valid(),
            self.origin().valid(),
            self.origin().all_due_at(self.started()),
            self.origin().admits(self.history()),
            self.origin().after(self.history()).due == self@.due,
            self.origin().after(self.history()).values == self@.values,
            self.origin().after(self.history()).intervals == self@.intervals,
    {
        let task = choose|task: Task| self.due@.dom().contains(task);
        assert(self@.due.dom().contains(task));
        assert(self@.due.dom() =~= self@.intervals.dom());
        assert(self.origin().due.dom() =~= self@.intervals.dom());
        assert(self.origin().due.dom().contains(task));
        lemma_run_keeps_valid(self.origin(), self.history@);
    }

    /// Drift-free scheduling: a registered task is always due at the start
    /// time plus its interval times the number of its firings so far.
    pub proof fn lemma_no_drift(&self, task: Task)
        requires
            self.wf(),
            self@.due.dom().contains(task),
        ensures
            self@.due[task] == self.started() + firings(self.history(), task)
                * self@.intervals[task],
    {
        self.lemma_wf();
        lemma_drift_free(self.origin(), self.history@, task);
    }

    /// A registered task that is due later than the start has fired.
    pub proof fn lemma_fired_if_due_later(&self, task: Task)
        requires
            self.wf(),
            self@.due.dom().contains(task),
            self@.due[task] > self.started(),
        ensures
            firings(self.history(), task) >= 1,
    {
        self.lemma_no_drift(task);
        let count = firings(self.history(), task);
        let interval = self@.intervals[task];
        assert(count >= 1) by (nonlinear_arith)
            requires
                count * interval > 0,
                count >= 0,
        ;
    }

    /// No starvation: once as many firings have happened as there are
    /// tasks, every registered task has fired.
    pub proof fn lemma_every_task_fires(&self, task: Task)
        requires
            self.wf(),
            self@.due.dom().contains(task),
            self.history().len() >= self@.due.dom().len(),
        ensures
            firings(self.history(), task) >= 1,
    {
        self.lemma_wf();
        lemma_no_starvation(self.origin(), self.started(), self.history@, task);
    }

    /// The schedule of a well-formed scheduler is never empty.
    proof fn lemma_never_empty(&self)
        requires
            self.wf(),
        ensures
            self.schedule@.len() > 0,
    {
        let task = choose|task: Task| self.due@.dom().contains(task);
        let event = Event { due: self.due@[task], task };
        assert(self.schedule@.count(event) == 1);
    }

    /// Seeds the schedule with one event per registered task, all due at
    /// `start`, and the value store with the placeholder. Fails only if the
    /// registry is empty.
    pub fn initialize(registry: Registry, start: u64) -> (result: Result<Scheduler, ConfigError>)
        ensures
            match result {
                Ok(scheduler) => {
                    &&& registry@.dom().len() > 0
                    &&& scheduler.wf()
                    &&& scheduler@ == State::initial(registry@, start as nat)
                    &&& scheduler@.valid()
                    &&& scheduler.started() == start
                    &&& scheduler.history() == Seq::<Firing>::empty()
                },
                Err(error) => {
                    &&& error == ConfigError::EmptyRegistry
                    &&& registry@.dom().len() == 0
                    &&& forall|task: Task| !registry@.dom().contains(task)
                },
            },
    {
        if registry.is_empty() {
            proof {
                assert forall|task: Task| !registry@.dom().contains(task) by {
                    assert(!Map::<Task, nat>::empty().dom().contains(task));
                }
            }
            return Err(ConfigError::EmptyRegistry);
        }
        let mut schedule = Schedule::new();
        let ghost empty = Map::<Task, u64>::empty();
        proof {
            assert forall|e: Event| #[trigger] schedule@.count(e) == 0nat by {}
        }
        let due = seed(&registry, &mut schedule, Task::Time, start, Ghost(empty));
        let due = seed(&registry, &mut schedule, Task::Battery, start, due);
        let due = seed(&registry, &mut schedule, Task::Memory, start, due);
        let due = seed(&registry, &mut schedule, Task::CpuLoad, start, due);
        proof {
            assert forall|task: Task| due@.dom().contains(task) == registry@.dom().contains(
                task,
            ) by {
                match task {
                    Task::Time => {},
                    Task::Battery => {},
                    Task::Memory => {},
                    Task::CpuLoad => {},
                }
            }
            assert(due@.dom() =~= registry@.dom());
            assert forall|task: Task| registry@.dom().contains(task) implies #[trigger] registry@[task]
                > 0 by {
                match task {
                    Task::Time => {},
                    Task::Battery => {},
                    Task::Memory => {},
                    Task::CpuLoad => {},
                }
            }
            assert forall|task: Task| due@.dom().contains(task) implies due@[task] == start by {
                match task {
                    Task::Time => {},
                    Task::Battery => {},
                    Task::Memory => {},
                    Task::CpuLoad => {},
                }
            }
            if forall|task: Task| !registry@.dom().contains(task) {
                assert(registry@.dom() =~= Set::<Task>::empty());
            }
        }
        let scheduler = Scheduler {
            registry,
            schedule,
            values: ValueStore::new(),
            stale: false,
            due,
            started: Ghost(start as nat),
            history: Ghost(Seq::empty()),
        };
        proof {
            assert(scheduler@.due =~= State::initial(registry@, start as nat).due);
            assert(scheduler@ =~= State::initial(registry@, start as nat));
            scheduler.lemma_wf();
        }
        Ok(scheduler)
    }

    /// The event that is due first.
    pub fn peek(&self) -> (event: Event)
        requires
            self.wf(),
        ensures
            event == self.next(),
            self@.earliest(event.task),
            self@.due[event.task] == event.due,
    {
        proof {
            self.lemma_never_empty();
        }
        let event = self.schedule.peek().unwrap();
        proof {
            assert(is_earliest(self.schedule@, event));
            assert(self.schedule@.count(event) > 0);
            assert forall|other: Task| self@.due.dom().contains(other) implies self@.due[event.task]
                <= #[trigger] self@.due[other] by {
                let waiting = Event { due: self.due@[other], task: other };
                assert(self.schedule@.count(waiting) == 1);
            }
        }
        event
    }

    /// How long to wait until the first event is due: nothing when it is
    /// due already.
    pub fn wait(&self, now: u64) -> (ms: u64)
        requires
            self.wf(),
        ensures
            self@.earliest(self.next().task),
            self@.due[self.next().task] == self.next().due,
            ms == if self.next().due > now {
                self.next().due - now
            } else {
                0
            },
    {
        let event = self.peek();
        if event.due > now {
            event.due - now
        } else {
            0
        }
    }

    /// Decides what the loop does next at time `now`: refresh the task that
    /// is due first while it is due; else publish the status line if a task
    /// has fired since it was last published; else sleep until the first
    /// event is due. At a time not before the start, a status line is
    /// published only after every registered task has fired.
    pub fn step(&mut self, now: u64) -> (action: Action)
        requires
            old(self).wf(),
        ensures
            final(self).wf(),
            final(self).next() == old(self).next(),
            final(self).started() == old(self).started(),
            final(self).history() == old(self).history(),
            old(self)@.earliest(old(self).next().task),
            old(self)@.due[old(self).next().task] == old(self).next().due,
            match action {
                Action::Refresh(task) => {
                    &&& old(self).next().due <= now
                    &&& task == old(self).next().task
                    &&& old(self)@.earliest(task)
                    &&& final(self)@ == old(self)@
                },
                Action::Publish(status) => {
                    &&& old(self).next().due > now
                    &&& old(self)@.stale
                    &&& status@ == status_text(old(self)@.values)
                    &&& final(self)@ == old(self)@.published()
                    &&& now >= old(self).started() ==> forall|task: Task|
                        old(self)@.due.dom().contains(task) ==> firings(
                            old(self).history(),
                            task,
                        ) >= 1
                },
                Action::Sleep(ms) => {
                    &&& old(self).next().due > now
                    &&& !old(self)@.stale
                    &&& ms == old(self).next().due - now
                    &&& final(self)@ == old(self)@
                },
            },
    {
        let event = self.peek();
        if event.due <= now {
            Action::Refresh(event.task)
        } else if self.stale {
            let status = compose(&self.values);
            self.stale = false;
            proof {
                assert(self@ =~= old(self)@.published());
                if now >= old(self).started() {
                    assert forall|task: Task| old(self)@.due.dom().contains(task) implies firings(
                        old(self).history(),
                        task,
                    ) >= 1 by {
                        assert(old(self)@.due[event.task] <= old(self)@.due[task]);
                        old(self).lemma_fired_if_due_later(task);
                    }
                }
            }
            Action::Publish(status)
        } else {
            Action::Sleep(event.due - now)
        }
    }

    /// Takes the outcome of an update of `task`, which must be the task that
    /// is due first. The slot of `task` gets the value, or the placeholder
    /// if the update failed; no other slot changes. The event of `task` is
    /// replaced by one that is due exactly one interval after the old one,
    /// whatever the outcome and whatever the time is now.
    pub fn complete(&mut self, task: Task, outcome: Result<String, MetricError>) -> (result: Result<
        Event,
        SchedulerError,
    >)
        requires
            old(self).wf(),
        ensures
            final(self).wf(),
            old(self)@.earliest(old(self).next().task),
            old(self)@.due[old(self).next().task] == old(self).next().due,
            forall|other: Task|
                other != task ==> final(self)@.values[other] == old(self)@.values[other],
            result is Ok && outcome is Err ==> final(self)@.values[task] == sentinel(),
            final(self).started() == old(self).started(),
            final(self).history() == if result is Ok {
                old(self).history().push(Firing { task, text: outcome_text(outcome) })
            } else {
                old(self).history()
            },
            match result {
                Ok(fired) => {
                    &&& fired == old(self).next()
                    &&& fired.task == task
                    &&& old(self)@.earliest(task)
                    &&& fired.due == old(self)@.due[task]
                    &&& fired.due + old(self)@.intervals[task] <= u64::MAX
                    &&& final(self)@ == old(self)@.fire(task, outcome_text(outcome))
                },
                Err(SchedulerError::NotNext) => {
                    &&& task != old(self).next().task
                    &&& final(self)@ == old(self)@
                    &&& final(self).next() == old(self).next()
                },
                Err(SchedulerError::TimeOverflow) => {
                    &&& task == old(self).next().task
                    &&& old(self).next().due + old(self)@.intervals[task] > u64::MAX
                    &&& final(self)@ == old(self)@
                    &&& final(self).next() == old(self).next()
                },
            },
    {
        let event = self.peek();
        if event.task != task {
            return Err(SchedulerError::NotNext);
        }
        let interval = self.registry.interval_of(task).unwrap();
        let again = match event.due.checked_add(interval) {
            Some(at) => at,
            None => {
                return Err(SchedulerError::TimeOverflow);
            },
        };
        let replacement = Event { due: again, task };
        let ghost before = self.schedule@;
        let ghost due = self.due@;
        self.schedule.replace_front(replacement);
        self.values.record(task, outcome);
        self.stale = true;
        self.due = Ghost(due.insert(task, again));
        let ghost firing = Firing { task, text: outcome_text(outcome) };
        self.history = Ghost(self.history@.push(firing));
        proof {
            old(self).lemma_wf();
            old(self).lemma_never_empty();
            assert(self.schedule@ == before.remove(event).insert(replacement));
            assert forall|e: Event| #[trigger]
                self.schedule@.count(e) == (if self.due@.dom().contains(e.task) && self.due@[e.task]
                    == e.due {
                    1nat
                } else {
                    0nat
                }) by {
                assert(before.count(e) == (if due.dom().contains(e.task) && due[e.task] == e.due {
                    1nat
                } else {
                    0nat
                }));
                assert(before.count(event) == 1);
            }
            assert(self.due@.dom() =~= due.dom());
            assert(self.due@.dom().contains(task));
            assert(self@.due =~= old(self)@.due.insert(
                task,
                old(self)@.due[task] + old(self)@.intervals[task],
            ));
            assert(self@ =~= old(self)@.fire(task, outcome_text(outcome)));
            let origin = old(self).origin();
            let past = old(self).history@;
            assert(self.history@.drop_last() =~= past);
            assert(origin.after(past).earliest(task));
            assert(origin.after(self.history@) == origin.after(past).fire(task, firing.text));
            assert(origin.after(self.history@).due =~= self@.due);
            assert(origin.after(self.history@).values =~= self@.values);
        }
        Ok(event)
    }

    /// The value store.
    pub fn values(&self) -> (values: &ValueStore)
        ensures
            values@ == self@.values,
    {
        &self.values
    }

    /// The status line of the current values.
    pub fn status(&self) -> (status: String)
        ensures
            status@ == status_text(self@.values),
    {
        compose(&self.values)
    }

    /// Whether a task has fired since the status line was last published.
    pub fn is_stale(&self) -> (stale: bool)
        ensures
            stale == self@.stale,
    {
        self.stale
    }

    /// When `task` is next due, if it is registered.
    pub fn due_time(&self, task: Task) -> (due: Option<u64>)
        requires
            self.wf(),
        ensures
            due is Some == self@.due.dom().contains(task),
            due matches Some(at) ==> self@.due[task] == at,
    {
        let due = self.schedule.due_of(task);
        proof {
            match due {
                Some(at) => {
                    assert(self.schedule@.count(Event { due: at, task }) > 0);
                },
                None => {
                    if self.due@.dom().contains(task) {
                        assert(self.schedule@.count(Event { due: self.due@[task], task }) == 1);
                    }
                },
            }
        }
        due
    }

    /// The refresh interval of `task`, if it is registered.
    pub fn interval_of(&self, task: Task) -> (interval: Option<u64>)
        ensures
            interval is Some == self@.intervals.dom().contains(task),
            interval matches Some(ms) ==> ms > 0 && self@.intervals[task] == ms,
    {
        self.registry.interval_of(task)
    }

    /// The number of registered tasks.
    pub fn task_count(&self) -> (count: usize)
        ensures
            count == self@.intervals.dom().len(),
    {
        self.registry.len()
    }
}

} // verus!
