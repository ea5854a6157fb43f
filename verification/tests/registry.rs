use statusbar::registry::{ConfigError, Registry};
use statusbar::task::{Task, SECOND};

#[test]
fn standard_intervals_are_one_sixty_one_and_six_seconds() {
    assert_eq!(SECOND, 1000);
    assert_eq!(Task::Time.interval(), 1_000);
    assert_eq!(Task::Battery.interval(), 60_000);
    assert_eq!(Task::Memory.interval(), 1_000);
    assert_eq!(Task::CpuLoad.interval(), 6_000);
}

#[test]
fn a_new_registry_is_empty() {
    let registry = Registry::new();
    assert!(registry.is_empty());
    assert_eq!(registry.len(), 0);
    assert!(!registry.contains(Task::Time));
    assert_eq!(registry.interval_of(Task::Time), None);
}

#[test]
fn the_standard_registry_holds_all_four_tasks() {
    let registry = Registry::standard();
    assert!(!registry.is_empty());
    assert_eq!(registry.len(), 4);
    assert_eq!(registry.interval_of(Task::Time), Some(1_000));
    assert_eq!(registry.interval_of(Task::Battery), Some(60_000));
    assert_eq!(registry.interval_of(Task::Memory), Some(1_000));
    assert_eq!(registry.interval_of(Task::CpuLoad), Some(6_000));
}

#[test]
fn register_adds_a_task_with_its_interval() {
    let mut registry = Registry::new();
    assert_eq!(registry.register(Task::Memory, 250), Ok(()));
    assert_eq!(registry.len(), 1);
    assert!(registry.contains(Task::Memory));
    assert!(!registry.contains(Task::Battery));
    assert_eq!(registry.interval_of(Task::Memory), Some(250));
}

#[test]
fn register_rejects_an_interval_of_zero() {
    let mut registry = Registry::new();
    assert_eq!(registry.register(Task::Time, 0), Err(ConfigError::MalformedInterval));
    assert!(registry.is_empty());
}

#[test]
fn register_rejects_a_task_that_is_registered_already() {
    let mut registry = Registry::new();
    assert_eq!(registry.register(Task::Time, 1_000), Ok(()));
    assert_eq!(registry.register(Task::Time, 2_000), Err(ConfigError::DuplicateTask));
    assert_eq!(registry.interval_of(Task::Time), Some(1_000));
    assert_eq!(registry.len(), 1);
}

#[test]
fn a_zero_interval_is_reported_before_a_duplicate() {
    let mut registry = Registry::new();
    assert_eq!(registry.register(Task::Time, 1_000), Ok(()));
    assert_eq!(registry.register(Task::Time, 0), Err(ConfigError::MalformedInterval));
}
