//! Run-queue latency measurement: scheduler wakeup and switch events turn
//! the time a thread of a tracked process waits for a CPU into log2
//! histograms per process, which a controller drains.
pub mod bucket;
pub mod maps;
pub mod probe;
pub mod laws;
pub mod profiler;
