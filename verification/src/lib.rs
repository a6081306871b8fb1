//! joulex: the verified core of a command-line benchmarking tool.
use vstd::prelude::*;

pub mod text;
pub mod parameter;
pub mod command;
pub mod winsplit;
pub mod benchmark;
pub mod commands;
pub mod scan;
pub mod output_metric;
pub mod metric;
pub mod util;
pub mod options;
pub mod export;
pub mod system_check;
pub mod timer;
pub mod output;
pub mod energy;
pub mod compare;
pub mod session;

verus! {
} // verus!
