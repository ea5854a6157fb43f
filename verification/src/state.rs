//! The scheduler as a state machine over plain mathematical values, and the
//! laws that hold of every run of it.
//!
//! A state gives each registered task its interval and the time at which it
//! is next due, and each task its current text. Firing a task stores a text
//! in its slot and moves its due time on by exactly its interval. A trace is
//! a sequence of firings; a state admits a trace when every firing takes a
//! task that is due no later than any other.

use crate::registry::{intervals_valid, lemma_task_set_bounded};
use crate::task::Task;
use crate::values::sentinel;
use vstd::prelude::*;

verus! {

/// One firing: the task that fired and the text its update left behind
/// (the value, or the placeholder when the update failed).
pub struct Firing {
    pub task: Task,
    pub text: Seq<char>,
}

/// The abstract state of a scheduler.
#[verifier::ext_equal]
pub struct State {
    /// The refresh interval of each registered task, in milliseconds.
    pub intervals: Map<Task, nat>,
    /// When each registered task is next due, in milliseconds.
    pub due: Map<Task, nat>,
    /// The current text of every task.
    pub values: Map<Task, Seq<char>>,
    /// Whether a task has fired since the status line was last published.
    pub stale: bool,
}

impl State {
    /// Exactly the registered tasks have a due time, there is at least one
    /// of them, every interval is positive, and every task has a text.
    pub open spec fn valid(self) -> bool {
        &&& self.due.dom() == self.intervals.dom()
        &&& exists|task: Task| self.due.dom().contains(task)
        &&& intervals_valid(self.intervals)
        &&& forall|task: Task| self.values.dom().contains(task)
    }

    /// The state right after initialization: every registered task is due at
    /// `start`, every slot holds the placeholder, nothing is to be published.
    pub open spec fn initial(intervals: Map<Task, nat>, start: nat) -> State {
        State {
            intervals,
            due: Map::new(|task: Task| intervals.dom().contains(task), |task: Task| start),
            values: Map::new(|task: Task| true, |task: Task| sentinel()),
            stale: false,
        }
    }

    /// Every registered task is due at `start`.
    pub open spec fn all_due_at(self, start: nat) -> bool {
        forall|task: Task| self.due.dom().contains(task) ==> #[trigger] self.due[task] == start
    }

    /// `task` is registered and no registered task is due before it.
    pub open spec fn earliest(self, task: Task) -> bool {
        &&& self.due.dom().contains(task)
        &&& forall|other: Task|
            self.due.dom().contains(other) ==> self.due[task] <= #[trigger] self.due[other]
    }

    /// The state after `task` has fired and left `text` behind: its slot
    /// holds `text`, and it is due again one interval after it was due.
    pub open spec fn fire(self, task: Task, text: Seq<char>) -> State {
        State {
            intervals: self.intervals,
            due: self.due.insert(task, self.due[task] + self.intervals[task]),
            values: self.values.insert(task, text),
            stale: true,
        }
    }

    /// The state after the status line has been handed out.
    pub open spec fn published(self) -> State {
        State { stale: false, ..self }
    }

    /// The state after all firings of `trace`, in order.
    pub open spec fn after(self, trace: Seq<Firing>) -> State
        decreases trace.len(),
    {
        if trace.len() == 0 {
            self
        } else {
            self.after(trace.drop_last()).fire(trace.last().task, trace.last().text)
        }
    }

    /// Every firing of `trace` takes a task that is then due first.
    pub open spec fn admits(self, trace: Seq<Firing>) -> bool
        decreases trace.len(),
    {
        trace.len() > 0 ==> {
            &&& self.admits(trace.drop_last())
            &&& self.after(trace.drop_last()).earliest(trace.last().task)
        }
    }
}

/// How often `task` fires in `trace`.
pub open spec fn firings(trace: Seq<Firing>, task: Task) -> nat
    decreases trace.len(),
{
    if trace.len() == 0 {
        0
    } else {
        firings(trace.drop_last(), task) + if trace.last().task == task {
            1nat
        } else {
            0nat
        }
    }
}

/// The tasks that fire in `trace`.
pub open spec fn fired(trace: Seq<Firing>) -> Set<Task>
    decreases trace.len(),
{
    if trace.len() == 0 {
        Set::empty()
    } else {
        fired(trace.drop_last()).insert(trace.last().task)
    }
}

/// The initial state of a non-empty registry with positive intervals is
/// valid, and all its tasks are due at the start.
pub proof fn lemma_initial_valid(intervals: Map<Task, nat>, start: nat)
    requires
        intervals_valid(intervals),
        exists|task: Task| intervals.dom().contains(task),
    ensures
        State::initial(intervals, start).valid(),
        State::initial(intervals, start).all_due_at(start),
{
    let state = State::initial(intervals, start);
    let task = choose|task: Task| intervals.dom().contains(task);
    assert(state.due.dom().contains(task));
    assert(state.due.dom() =~= intervals.dom());
}

/// Firing a registered task leads from a valid state to a valid state.
pub proof fn lemma_fire_keeps_valid(state: State, task: Task, text: Seq<char>)
    requires
        state.valid(),
        state.due.dom().contains(task),
    ensures
        state.fire(task, text).valid(),
        state.fire(task, text).due.dom() == state.due.dom(),
{
    let next = state.fire(task, text);
    assert(next.due.dom() =~= state.due.dom());
    assert(next.due.dom().contains(task));
}

/// Isolation: a firing changes the slot and the due time of the task that
/// fired, and of no other task; a failed update leaves the placeholder.
pub proof fn lemma_fire_is_isolated(state: State, task: Task, text: Seq<char>, other: Task)
    requires
        other != task,
    ensures
        state.fire(task, text).values[task] == text,
        state.fire(task, text).values[other] == state.values[other],
        state.fire(task, text).due[other] == state.due[other],
        state.fire(task, text).due.dom().contains(other) == state.due.dom().contains(other),
{
}

/// An admitted trace leads from a valid state to a valid state over the same
/// tasks and intervals.
pub proof fn lemma_run_keeps_valid(state: State, trace: Seq<Firing>)
    requires
        state.valid(),
        state.admits(trace),
    ensures
        state.after(trace).valid(),
        state.after(trace).due.dom() == state.due.dom(),
        state.after(trace).intervals == state.intervals,
    decreases trace.len(),
{
    if trace.len() > 0 {
        lemma_run_keeps_valid(state, trace.drop_last());
        lemma_fire_keeps_valid(
            state.after(trace.drop_last()),
            trace.last().task,
            trace.last().text,
        );
    }
}

/// Drift-free scheduling: after any trace a task is due at its first due
/// time plus its interval times the number of its firings, whatever else
/// fired in between and however long that took.
pub proof fn lemma_drift_free(state: State, trace: Seq<Firing>, task: Task)
    ensures
        state.after(trace).intervals == state.intervals,
        state.after(trace).due[task] == state.due[task] + firings(trace, task)
            * state.intervals[task],
    decreases trace.len(),
{
    let interval = state.intervals[task];
    if trace.len() > 0 {
        let earlier = trace.drop_last();
        let n = firings(earlier, task);
        lemma_drift_free(state, earlier, task);
        assert(state.after(earlier).due[task] == state.due[task] + n * interval);
        if trace.last().task == task {
            assert(firings(trace, task) == n + 1);
            assert(state.after(trace).due[task] == state.after(earlier).due[task] + interval);
            assert(n * interval + interval == (n + 1) * interval) by (nonlinear_arith);
        } else {
            assert(firings(trace, task) == n);
            assert(state.after(trace).due[task] == state.after(earlier).due[task]);
        }
    } else {
        assert(firings(trace, task) == 0);
        assert(0 * interval == 0) by (nonlinear_arith);
        assert(state.after(trace) == state);
    }
}

/// Drift-free scheduling, firing by firing: the event that the firing number
/// `at` of a trace takes was due at the task's first due time plus its
/// interval times the number of its earlier firings.
pub proof fn lemma_firing_time(state: State, trace: Seq<Firing>, at: int)
    requires
        0 <= at < trace.len(),
    ensures
        state.after(trace.take(at)).due[trace[at].task] == state.due[trace[at].task] + firings(
            trace.take(at),
            trace[at].task,
        ) * state.intervals[trace[at].task],
{
    lemma_drift_free(state, trace.take(at), trace[at].task);
}

/// Running a trace in two parts is running it whole.
pub proof fn lemma_split(state: State, first: Seq<Firing>, second: Seq<Firing>)
    ensures
        state.after(first + second) == state.after(first).after(second),
        state.admits(first + second) == (state.admits(first) && state.after(first).admits(second)),
    decreases second.len(),
{
    if second.len() == 0 {
        assert(first + second =~= first);
    } else {
        let whole = first + second;
        assert(whole.drop_last() =~= first + second.drop_last());
        assert(whole.last() == second.last());
        lemma_split(state, first, second.drop_last());
    }
}

/// The due times of a valid state never fall below the due time of a task
/// that was due first: firing only moves due times forward.
pub proof fn lemma_due_times_never_fall(
    state: State,
    trace: Seq<Firing>,
    first: Task,
    task: Task,
)
    requires
        state.valid(),
        state.admits(trace),
        state.earliest(first),
        state.due.dom().contains(task),
    ensures
        state.due[first] <= state.after(trace).due[task],
    decreases trace.len(),
{
    if trace.len() > 0 {
        let earlier = trace.drop_last();
        lemma_run_keeps_valid(state, earlier);
        lemma_due_times_never_fall(state, earlier, first, task);
        lemma_due_times_never_fall(state, earlier, first, trace.last().task);
    }
}

/// The time at which the event taken by the firing number `at` of `trace`
/// was due.
pub open spec fn due_when_fired(state: State, trace: Seq<Firing>, at: int) -> nat {
    state.after(trace.take(at)).due[trace[at].task]
}

/// Ordering: the events that a run takes, one after another, are due at
/// non-decreasing times, although each is replaced by a later one as soon as
/// it is taken.
pub proof fn lemma_firings_ascend(state: State, trace: Seq<Firing>, i: int, j: int)
    requires
        state.valid(),
        state.admits(trace),
        0 <= i <= j < trace.len(),
    ensures
        due_when_fired(state, trace, i) <= due_when_fired(state, trace, j),
{
    let before = trace.take(i);
    let between = trace.subrange(i, j);
    let upto = trace.take(j + 1);
    lemma_prefix(state, trace, j + 1, trace[j].task);
    assert(upto.drop_last() =~= trace.take(j));
    assert(upto.last() == trace[j]);
    assert(trace.take(j) =~= before + between);
    lemma_split(state, before, between);
    lemma_prefix(state, trace, i + 1, trace[i].task);
    assert(trace.take(i + 1).drop_last() =~= before);
    assert(trace.take(i + 1).last() == trace[i]);
    lemma_run_keeps_valid(state, before);
    lemma_run_keeps_valid(state, trace.take(j));
    lemma_due_times_never_fall(state.after(before), between, trace[i].task, trace[j].task);
}

/// A task counts as fired exactly when it fires at least once.
pub proof fn lemma_fired_iff_firings(trace: Seq<Firing>, task: Task)
    ensures
        fired(trace).contains(task) <==> firings(trace, task) > 0,
        fired(trace).finite(),
    decreases trace.len(),
{
    if trace.len() > 0 {
        lemma_fired_iff_firings(trace.drop_last(), task);
    }
}

/// A state that admits a trace admits each of its prefixes, and the firings
/// of a prefix are among those of the trace.
pub proof fn lemma_prefix(state: State, trace: Seq<Firing>, len: int, task: Task)
    requires
        0 <= len <= trace.len(),
    ensures
        state.admits(trace) ==> state.admits(trace.take(len)),
        firings(trace.take(len), task) <= firings(trace, task),
    decreases trace.len(),
{
    if len == trace.len() {
        assert(trace.take(len) =~= trace);
    } else {
        assert(trace.drop_last().take(len) =~= trace.take(len));
        lemma_prefix(state, trace.drop_last(), len, task);
    }
}

/// While fewer firings have happened than there are tasks, every firing
/// takes a task that has not fired before.
proof fn lemma_first_round(state: State, start: nat, trace: Seq<Firing>)
    requires
        state.valid(),
        state.all_due_at(start),
        state.admits(trace),
        trace.len() <= state.due.dom().len(),
    ensures
        fired(trace).finite(),
        fired(trace).len() == trace.len(),
        fired(trace).subset_of(state.due.dom()),
    decreases trace.len(),
{
    if trace.len() > 0 {
        let earlier = trace.drop_last();
        let task = trace.last().task;
        let tasks = state.due.dom();
        let reached = state.after(earlier);
        lemma_first_round(state, start, earlier);
        lemma_run_keeps_valid(state, earlier);
        lemma_task_set_bounded(tasks);
        // Some task has not fired yet, so it is still due at the start.
        if forall|other: Task| tasks.contains(other) ==> fired(earlier).contains(other) {
            assert(tasks.subset_of(fired(earlier)));
            vstd::set_lib::lemma_len_subset(tasks, fired(earlier));
            assert(false);
        }
        let waiting = choose|other: Task| tasks.contains(other) && !fired(earlier).contains(other);
        lemma_fired_iff_firings(earlier, waiting);
        lemma_drift_free(state, earlier, waiting);
        assert(firings(earlier, waiting) * state.intervals[waiting] == 0) by (nonlinear_arith)
            requires
                firings(earlier, waiting) == 0,
        ;
        assert(reached.due[waiting] == start);
        // The task that fires now is due no later, so it has not fired either.
        lemma_drift_free(state, earlier, task);
        lemma_fired_iff_firings(earlier, task);
        assert(reached.due[task] <= reached.due[waiting]);
        assert(state.due[task] == start);
        assert(state.intervals[task] > 0);
        let n = firings(earlier, task);
        let interval = state.intervals[task];
        assert(n == 0) by (nonlinear_arith)
            requires
                n * interval <= 0,
                interval > 0,
                n >= 0,
        ;
        assert(!fired(earlier).contains(task));
    }
}

/// No starvation: starting with every task due at the same time, once as
/// many firings have happened as there are tasks, every task has fired.
pub proof fn lemma_no_starvation(state: State, start: nat, trace: Seq<Firing>, task: Task)
    requires
        state.valid(),
        state.all_due_at(start),
        state.admits(trace),
        trace.len() >= state.due.dom().len(),
        state.due.dom().contains(task),
    ensures
        firings(trace, task) >= 1,
{
    let tasks = state.due.dom();
    lemma_task_set_bounded(tasks);
    let round = trace.take(tasks.len() as int);
    lemma_prefix(state, trace, tasks.len() as int, task);
    lemma_first_round(state, start, round);
    vstd::set_lib::lemma_subset_equality(fired(round), tasks);
    lemma_fired_iff_firings(round, task);
}

} // verus!
