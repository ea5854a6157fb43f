//! The status composer: a pure function from the value store to the status
//! line, with a fixed layout.
//!
//! The line reads ` ram: MMM  cpu: CCC  bat: BBB  TTT… `: each value stands
//! in a field of a fixed minimum width, filled up with spaces on the right.

use crate::task::Task;
use crate::text::{pad_right, padded};
use crate::values::{sentinel, ValueStore};
use vstd::prelude::*;
use vstd::string::*;

verus! {

/// Width of the field of a percentage.
pub const METRIC_WIDTH: usize = 3;

/// Width of the field of the date and time.
pub const CLOCK_WIDTH: usize = 27;

/// The minimum width of the field of `task`.
pub open spec fn field_width(task: Task) -> nat {
    match task {
        Task::Time => 27,
        Task::Battery => 3,
        Task::Memory => 3,
        Task::CpuLoad => 3,
    }
}

/// The fixed text in front of the field of `task`.
pub open spec fn label(task: Task) -> Seq<char> {
    match task {
        Task::Memory => seq![' ', 'r', 'a', 'm', ':', ' '],
        Task::CpuLoad => seq![' ', ' ', 'c', 'p', 'u', ':', ' '],
        Task::Battery => seq![' ', ' ', 'b', 'a', 't', ':', ' '],
        Task::Time => seq![' ', ' '],
    }
}

/// The field of `task` as it stands in the line: its value, filled up to the
/// field's width.
pub open spec fn field(values: Map<Task, Seq<char>>, task: Task) -> Seq<char> {
    pad_right(values[task], field_width(task))
}

/// The status line of a snapshot of the value store.
pub open spec fn status_text(values: Map<Task, Seq<char>>) -> Seq<char> {
    label(Task::Memory) + field(values, Task::Memory) + label(Task::CpuLoad) + field(
        values,
        Task::CpuLoad,
    ) + label(Task::Battery) + field(values, Task::Battery) + label(Task::Time) + field(
        values,
        Task::Time,
    ) + seq![' ']
}

/// The position in the status line at which the field of `task` begins.
pub open spec fn field_start(values: Map<Task, Seq<char>>, task: Task) -> int {
    match task {
        Task::Memory => 6int,
        Task::CpuLoad => 13int + field(values, Task::Memory).len(),
        Task::Battery => 20int + field(values, Task::Memory).len() + field(
            values,
            Task::CpuLoad,
        ).len(),
        Task::Time => 22int + field(values, Task::Memory).len() + field(values, Task::CpuLoad).len()
            + field(values, Task::Battery).len(),
    }
}

/// While every value fits its field the line is 59 characters long.
pub proof fn lemma_status_len_when_fitting(values: Map<Task, Seq<char>>)
    requires
        forall|task: Task| values[task].len() <= field_width(task),
    ensures
        status_text(values).len() == 59,
{
    assert(values[Task::Memory].len() <= field_width(Task::Memory));
    assert(values[Task::CpuLoad].len() <= field_width(Task::CpuLoad));
    assert(values[Task::Battery].len() <= field_width(Task::Battery));
    assert(values[Task::Time].len() <= field_width(Task::Time));
}

/// Each field stands in the line at its start position.
pub proof fn lemma_field_position(values: Map<Task, Seq<char>>, task: Task)
    ensures
        0 <= field_start(values, task),
        field_start(values, task) + field(values, task).len() < status_text(values).len(),
        status_text(values).subrange(
            field_start(values, task),
            field_start(values, task) + field(values, task).len(),
        ) == field(values, task),
{
    let line = status_text(values);
    let from = field_start(values, task);
    let piece = field(values, task);
    assert(line.subrange(from, from + piece.len()) =~= piece);
}

/// The status line depends on nothing but the four values: snapshots that
/// agree on them give the same line.
pub proof fn lemma_status_is_function_of_values(
    first: Map<Task, Seq<char>>,
    second: Map<Task, Seq<char>>,
)
    requires
        forall|task: Task| first[task] == second[task],
    ensures
        status_text(first) == status_text(second),
{
    assert(first[Task::Memory] == second[Task::Memory]);
    assert(first[Task::CpuLoad] == second[Task::CpuLoad]);
    assert(first[Task::Battery] == second[Task::Battery]);
    assert(first[Task::Time] == second[Task::Time]);
}

/// Layout stability under failure: when the value of `task` fits its field,
/// replacing it with the placeholder changes neither the length of the line
/// nor where any field begins, and no character outside the field of `task`.
pub proof fn lemma_failure_keeps_layout(values: Map<Task, Seq<char>>, task: Task)
    requires
        values[task].len() <= field_width(task),
    ensures
        ({
            let failed = values.insert(task, sentinel());
            &&& status_text(failed).len() == status_text(values).len()
            &&& forall|other: Task| field_start(failed, other) == field_start(values, other)
            &&& forall|other: Task| other != task ==> field(failed, other) == field(values, other)
            &&& forall|i: int|
                0 <= i < status_text(values).len() && !(field_start(values, task) <= i
                    < field_start(values, task) + field_width(task)) ==> status_text(failed)[i]
                    == status_text(values)[i]
        }),
{
    let failed = values.insert(task, sentinel());
    assert(field(failed, task).len() == field(values, task).len());
    assert forall|other: Task| other != task implies field(failed, other) == field(
        values,
        other,
    ) by {
        assert(failed[other] == values[other]);
    }
    assert(field(failed, Task::Memory).len() == field(values, Task::Memory).len());
    assert(field(failed, Task::CpuLoad).len() == field(values, Task::CpuLoad).len());
    assert(field(failed, Task::Battery).len() == field(values, Task::Battery).len());
    assert(field(failed, Task::Time).len() == field(values, Task::Time).len());
}

/// Composes the status line from the value store. The store is only read,
/// and the line is a function of its four values.
pub fn compose(values: &ValueStore) -> (status: String)
    ensures
        status@ == status_text(values@),
{
    proof {
        reveal_strlit(" ram: ");
        reveal_strlit("  cpu: ");
        reveal_strlit("  bat: ");
        reveal_strlit("  ");
        reveal_strlit(" ");
        assert(" ram: "@ =~= label(Task::Memory));
        assert("  cpu: "@ =~= label(Task::CpuLoad));
        assert("  bat: "@ =~= label(Task::Battery));
        assert("  "@ =~= label(Task::Time));
        assert(" "@ =~= seq![' ']);
    }
    let mut status = String::from_str(" ram: ");
    let memory = padded(values.get(Task::Memory), METRIC_WIDTH);
    status.append(memory.as_str());
    status.append("  cpu: ");
    let load = padded(values.get(Task::CpuLoad), METRIC_WIDTH);
    status.append(load.as_str());
    status.append("  bat: ");
    let battery = padded(values.get(Task::Battery), METRIC_WIDTH);
    status.append(battery.as_str());
    status.append("  ");
    let time = padded(values.get(Task::Time), CLOCK_WIDTH);
    status.append(time.as_str());
    status.append(" ");
    assert(status@ =~= status_text(values@));
    status
}

} // verus!
