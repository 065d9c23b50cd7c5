//! Task-orchestration core of a multi-target build/test/lint tool.
//!
//! The library models a fixed catalog of buildable targets, expands a
//! requested operation into a graph of jobs with their prerequisites,
//! schedules that graph wavefront by wavefront, and consults a
//! checksum-based build cache to decide whether a job may be skipped.
//! Everything that touches the outside world (process spawning, file
//! system, terminal) stays with the caller; the scheduler itself is a
//! plain state machine over the job graph.

pub mod alist;
pub mod checksum_records;
pub mod job_definition;
pub mod job_type;
pub mod jobs_resolver;
pub mod jobs_runner;
pub mod location;
pub mod modules;
pub mod spawner;
pub mod target;
