//! Benchmark runs: which run is which, what a run measures, and the
//! decisions of the runner and the scheduler.
pub mod executor;
pub mod timing_result;
pub mod benchmark_result;
pub mod runner;
pub mod scheduler;
