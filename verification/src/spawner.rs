//! The outcome of one executed job: a success flag and the captured
//! report lines. Spawning itself is the caller's business.

use vstd::prelude::*;

verus! {

/// What one executed (or skipped) job produced.
#[derive(Debug, Clone)]
pub struct SpawnResult {
    /// Human-readable description of the job.
    pub job: String,
    /// The captured report lines of the job.
    pub report: Vec<String>,
    /// Whether the job finished successfully.
    pub success: bool,
    /// Whether the job was skipped instead of executed.
    pub skipped: bool,
}

impl SpawnResult {
    /// The result of a job that performed file-system bookkeeping only
    /// and finished successfully.
    pub fn create_for_fs(job: String, report: Vec<String>) -> (r: SpawnResult)
        ensures
            r.job@ == job@,
            r.report@ == report@,
            r.success,
            !r.skipped,
    {
        SpawnResult { job, report, success: true, skipped: false }
    }

    /// The result of a job that was skipped because its target is
    /// provably unchanged. No external process ran.
    pub fn create_for_skipped(job: String) -> (r: SpawnResult)
        ensures
            r.job@ == job@,
            r.report@.len() == 0,
            r.success,
            r.skipped,
    {
        SpawnResult { job, report: Vec::new(), success: true, skipped: true }
    }

    /// The result of one executed command with the given outcome.
    pub fn create_for_command(job: String, report: Vec<String>, success: bool) -> (r: SpawnResult)
        ensures
            r.job@ == job@,
            r.report@ == report@,
            r.success == success,
            !r.skipped,
    {
        SpawnResult { job, report, success, skipped: false }
    }

    /// Folds the result of a further command of the same job into this
    /// one: reports are concatenated, and the whole job succeeded (or
    /// counts as skipped) only if every part did.
    pub fn append(&mut self, other: SpawnResult)
        ensures
            final(self).job@ == old(self).job@,
            final(self).report@ == old(self).report@ + other.report@,
            final(self).success == (old(self).success && other.success),
            final(self).skipped == (old(self).skipped && other.skipped),
    {
        let mut other_report = other.report;
        self.report.append(&mut other_report);
        self.success = self.success && other.success;
        self.skipped = self.skipped && other.skipped;
    }
}

} // verus!
