//! The measuring and reporting core of a scheduler benchmark that shows
//! priority inversion on a kernel lock.

pub mod accuracy;
pub mod affinity;
pub mod cli;
pub mod counting;
pub mod cpu_worker;
pub mod csv;
pub mod dashboard;
pub mod double;
pub mod duration;
pub mod frames;
pub mod gate;
pub mod histogram;
pub mod nearness;
pub mod number;
pub mod options;
pub mod rate;
pub mod report;
pub mod reporter;
pub mod schedule;
pub mod stats;
pub mod text;
pub mod timing;
pub mod workload;

pub use duration::Duration;
