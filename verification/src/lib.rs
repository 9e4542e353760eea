//! Core of a cluster job-queue monitor: parses the batch scheduler's
//! queue-listing output into job records and resolves the scheduler's
//! percent-escape filename patterns into concrete log paths.

pub mod job;
pub mod job_watcher;
pub mod text;
