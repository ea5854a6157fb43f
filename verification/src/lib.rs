//! A periodic-task scheduler for a status bar.
//!
//! A handful of independently timed items (clock, battery, memory, CPU load)
//! are refreshed on one thread; after each batch of refreshes a single status
//! line is composed from their latest values.

pub mod composer;
pub mod metrics;
pub mod registry;
pub mod schedule;
pub mod scheduler;
pub mod sink;
pub mod state;
pub mod task;
pub mod text;
pub mod values;
