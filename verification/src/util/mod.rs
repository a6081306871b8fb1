//! Small helpers: units, text sanitizing, priorities and CPU affinity.
pub mod platform;
pub mod units;
pub mod sanitize;
pub mod priority;
pub mod affinity;
pub mod interrupt;
