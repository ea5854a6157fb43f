use statusbar::registry::{ConfigError, Registry};
use statusbar::schedule::Event;
use statusbar::scheduler::{Action, Scheduler, SchedulerError};
use statusbar::task::Task;
use statusbar::values::MetricError;

fn standard(start: u64) -> Scheduler {
    Scheduler::initialize(Registry::standard(), start).unwrap()
}

fn single(task: Task, interval: u64, start: u64) -> Scheduler {
    let mut registry = Registry::new();
    registry.register(task, interval).unwrap();
    Scheduler::initialize(registry, start).unwrap()
}

fn refresh(scheduler: &mut Scheduler, now: u64) -> Task {
    match scheduler.step(now) {
        Action::Refresh(task) => task,
        other => panic!("expected a refresh, got {:?}", other),
    }
}

#[test]
fn initialize_rejects_an_empty_registry() {
    assert_eq!(
        Scheduler::initialize(Registry::new(), 0).err(),
        Some(ConfigError::EmptyRegistry)
    );
}

#[test]
fn initialize_seeds_every_task_at_the_start() {
    let scheduler = standard(500);
    assert_eq!(scheduler.task_count(), 4);
    for task in [Task::Time, Task::Battery, Task::Memory, Task::CpuLoad] {
        assert_eq!(scheduler.due_time(task), Some(500));
        assert_eq!(scheduler.values().get(task), "???");
    }
    assert_eq!(scheduler.peek().due, 500);
    assert!(!scheduler.is_stale());
    assert_eq!(scheduler.interval_of(Task::Battery), Some(60_000));
}

#[test]
fn initialize_with_some_tasks_leaves_the_others_out() {
    let mut registry = Registry::new();
    registry.register(Task::Memory, 300).unwrap();
    registry.register(Task::Time, 700).unwrap();
    let scheduler = Scheduler::initialize(registry, 10).unwrap();
    assert_eq!(scheduler.task_count(), 2);
    assert_eq!(scheduler.due_time(Task::Memory), Some(10));
    assert_eq!(scheduler.due_time(Task::Time), Some(10));
    assert_eq!(scheduler.due_time(Task::Battery), None);
    assert_eq!(scheduler.due_time(Task::CpuLoad), None);
    assert_eq!(scheduler.interval_of(Task::CpuLoad), None);
    assert_eq!(scheduler.interval_of(Task::Memory), Some(300));
}

#[test]
fn wait_is_the_time_until_the_first_event_or_nothing() {
    let scheduler = single(Task::Time, 1_000, 5_000);
    assert_eq!(scheduler.wait(0), 5_000);
    assert_eq!(scheduler.wait(4_999), 1);
    assert_eq!(scheduler.wait(5_000), 0);
    assert_eq!(scheduler.wait(9_000), 0);
}

#[test]
fn step_sleeps_until_the_first_event_is_due() {
    let mut scheduler = single(Task::Time, 1_000, 5_000);
    match scheduler.step(1_200) {
        Action::Sleep(ms) => assert_eq!(ms, 3_800),
        other => panic!("expected a sleep, got {:?}", other),
    }
}

#[test]
fn step_asks_for_the_same_refresh_until_it_is_completed() {
    let mut scheduler = single(Task::Memory, 1_000, 0);
    assert_eq!(refresh(&mut scheduler, 0), Task::Memory);
    assert_eq!(refresh(&mut scheduler, 0), Task::Memory);
    assert_eq!(scheduler.due_time(Task::Memory), Some(0));
}

#[test]
fn every_task_fires_before_the_first_status_is_published() {
    let mut scheduler = standard(0);
    let mut fired = Vec::new();
    loop {
        match scheduler.step(0) {
            Action::Refresh(task) => {
                fired.push(task);
                scheduler.complete(task, Ok(String::from("1%"))).unwrap();
            }
            Action::Publish(status) => {
                assert_eq!(
                    status,
                    " ram: 1%   cpu: 1%   bat: 1%   1%                          "
                );
                break;
            }
            Action::Sleep(_) => panic!("slept before publishing"),
        }
    }
    assert_eq!(fired.len(), 4);
    for task in [Task::Time, Task::Battery, Task::Memory, Task::CpuLoad] {
        assert!(fired.contains(&task));
    }
}

#[test]
fn after_as_many_firings_as_tasks_every_task_has_fired() {
    let mut registry = Registry::new();
    registry.register(Task::Battery, 1).unwrap();
    registry.register(Task::CpuLoad, 1_000_000).unwrap();
    registry.register(Task::Time, 3).unwrap();
    let mut scheduler = Scheduler::initialize(registry, 77).unwrap();
    let mut fired = Vec::new();
    for _ in 0..scheduler.task_count() {
        let task = refresh(&mut scheduler, u64::MAX);
        fired.push(task);
        scheduler.complete(task, Err(MetricError::Unavailable)).unwrap();
    }
    assert_eq!(fired.len(), 3);
    assert!(fired.contains(&Task::Battery));
    assert!(fired.contains(&Task::CpuLoad));
    assert!(fired.contains(&Task::Time));
}

#[test]
fn status_is_published_once_after_a_batch_and_then_the_loop_sleeps() {
    let mut scheduler = single(Task::Battery, 60_000, 0);
    let task = refresh(&mut scheduler, 7);
    scheduler.complete(task, Ok(String::from("88%"))).unwrap();
    assert!(scheduler.is_stale());
    match scheduler.step(7) {
        Action::Publish(status) => {
            assert_eq!(status, " ram: ???  cpu: ???  bat: 88%  ???                         ")
        }
        other => panic!("expected a publish, got {:?}", other),
    }
    assert!(!scheduler.is_stale());
    match scheduler.step(7) {
        Action::Sleep(ms) => assert_eq!(ms, 59_993),
        other => panic!("expected a sleep, got {:?}", other),
    }
    assert_eq!(scheduler.status(), " ram: ???  cpu: ???  bat: 88%  ???                         ");
}

#[test]
fn the_nth_firing_is_due_at_start_plus_n_intervals() {
    let start = 1_000;
    let interval = 250;
    let mut scheduler = single(Task::CpuLoad, interval, start);
    // However late each update is run and completed, the due times do not drift.
    let lateness = [0, 3, 249, 1_000, 17, 100_000, 1];
    let mut now = start;
    for (n, late) in lateness.iter().enumerate() {
        now = now.max(start + n as u64 * interval) + late;
        assert_eq!(refresh(&mut scheduler, now), Task::CpuLoad);
        let fired = scheduler.complete(Task::CpuLoad, Ok(String::from("1%"))).unwrap();
        assert_eq!(fired, Event { due: start + n as u64 * interval, task: Task::CpuLoad });
        assert_eq!(scheduler.due_time(Task::CpuLoad), Some(start + (n as u64 + 1) * interval));
    }
}

#[test]
fn a_failure_changes_only_the_slot_of_the_task_that_failed() {
    let mut scheduler = standard(0);
    for _ in 0..4 {
        let task = refresh(&mut scheduler, 0);
        let value = match task {
            Task::Time => "noon",
            Task::Battery => "88%",
            Task::Memory => "42%",
            Task::CpuLoad => "7%",
        };
        scheduler.complete(task, Ok(String::from(value))).unwrap();
    }
    // Memory and the clock are due again at one second; fail whichever comes first.
    let failing = refresh(&mut scheduler, 1_000);
    assert!(failing == Task::Memory || failing == Task::Time);
    let fired = scheduler.complete(failing, Err(MetricError::Unavailable)).unwrap();
    assert_eq!(fired, Event { due: 1_000, task: failing });
    for task in [Task::Time, Task::Battery, Task::Memory, Task::CpuLoad] {
        let expected = if task == failing {
            "???"
        } else {
            match task {
                Task::Time => "noon",
                Task::Battery => "88%",
                Task::Memory => "42%",
                Task::CpuLoad => "7%",
            }
        };
        assert_eq!(scheduler.values().get(task), expected);
    }
    assert_eq!(scheduler.due_time(failing), Some(2_000));
    assert_eq!(scheduler.due_time(Task::Battery), Some(60_000));
    assert_eq!(scheduler.due_time(Task::CpuLoad), Some(6_000));
}

#[test]
fn complete_rejects_an_outcome_for_another_task() {
    let mut registry = Registry::new();
    registry.register(Task::Battery, 10).unwrap();
    registry.register(Task::Memory, 10).unwrap();
    let mut scheduler = Scheduler::initialize(registry, 0).unwrap();
    let next = refresh(&mut scheduler, 0);
    let other = if next == Task::Battery { Task::Memory } else { Task::Battery };
    assert_eq!(
        scheduler.complete(other, Ok(String::from("5%"))),
        Err(SchedulerError::NotNext)
    );
    assert_eq!(
        scheduler.complete(Task::Time, Ok(String::from("5%"))),
        Err(SchedulerError::NotNext)
    );
    assert_eq!(scheduler.values().get(other), "???");
    assert_eq!(scheduler.values().get(next), "???");
    assert_eq!(scheduler.due_time(other), Some(0));
    assert_eq!(scheduler.due_time(next), Some(0));
    assert!(!scheduler.is_stale());
    assert_eq!(scheduler.peek().task, next);
}

#[test]
fn complete_reports_a_due_time_beyond_the_clock() {
    let mut scheduler = single(Task::Time, 10, u64::MAX - 5);
    assert_eq!(refresh(&mut scheduler, u64::MAX), Task::Time);
    assert_eq!(
        scheduler.complete(Task::Time, Ok(String::from("late"))),
        Err(SchedulerError::TimeOverflow)
    );
    assert_eq!(scheduler.values().get(Task::Time), "???");
    assert_eq!(scheduler.due_time(Task::Time), Some(u64::MAX - 5));
    assert!(!scheduler.is_stale());
}

#[test]
fn the_last_due_time_that_fits_is_accepted() {
    let mut scheduler = single(Task::Time, 5, u64::MAX - 5);
    assert_eq!(
        scheduler.complete(Task::Time, Ok(String::from("late"))),
        Ok(Event { due: u64::MAX - 5, task: Task::Time })
    );
    assert_eq!(scheduler.due_time(Task::Time), Some(u64::MAX));
}

#[test]
fn tasks_fire_in_order_of_due_time() {
    let mut registry = Registry::new();
    registry.register(Task::Time, 2).unwrap();
    registry.register(Task::Memory, 3).unwrap();
    let mut scheduler = Scheduler::initialize(registry, 0).unwrap();
    let mut fired = Vec::new();
    for _ in 0..9 {
        let event = scheduler.peek();
        fired.push(event.due);
        scheduler.complete(event.task, Ok(String::from("x"))).unwrap();
    }
    assert_eq!(fired, vec![0, 0, 2, 3, 4, 6, 6, 8, 9]);
}

#[test]
fn no_status_is_published_before_every_task_has_fired() {
    let mut scheduler = standard(1_000);
    let mut fired = 0;
    for now in [1_000, 1_000, 1_001, 1_500] {
        match scheduler.step(now) {
            Action::Refresh(task) => {
                scheduler.complete(task, Ok(String::from("1%"))).unwrap();
                fired += 1;
            }
            other => panic!("expected a refresh, got {:?}", other),
        }
    }
    assert_eq!(fired, 4);
    match scheduler.step(1_500) {
        Action::Publish(_) => {}
        other => panic!("expected a publish, got {:?}", other),
    }
}
