//! One schedulable unit of work: a target paired with a job type.

use vstd::prelude::*;

use crate::job_type::JobType;
use crate::target::Target;

verus! {

/// A job definition: one target together with one job type. Created
/// once per run by the resolver and never mutated afterwards.
#[derive(Debug, Clone, Copy, PartialEq, Eq, Hash, Structural)]
pub struct JobDefinition {
    pub target: Target,
    pub job_type: JobType,
}

impl JobDefinition {
    /// Creates the job definition for the given target and job type.
    pub fn new(target: Target, job_type: JobType) -> (r: JobDefinition)
        ensures
            r.target == target,
            r.job_type == job_type,
    {
        JobDefinition { target, job_type }
    }

    /// The position of the job in the total order of job definitions:
    /// targets in declaration order, then the job pipeline rank, then
    /// the production flag. The order is injective: distinct jobs have
    /// distinct positions.
    pub open spec fn spec_order(self) -> int {
        self.target.spec_ordinal() * 16 + self.job_type.spec_rank() * 2 + (
        if self.job_type.spec_is_production() == Some(true) {
            1int
        } else {
            0int
        })
    }

    /// The position of the job in the total order of job definitions.
    pub fn order(&self) -> (r: u16)
        ensures
            r as int == self.spec_order(),
    {
        let prod_bit: u16 = match self.job_type.is_production() {
            Some(true) => 1,
            _ => 0,
        };
        (self.target.ordinal() as u16) * 16 + (self.job_type.rank() as u16) * 2 + prod_bit
    }

    /// The scheduling dependency relation between two jobs of one run:
    /// a job waits for every earlier job of the same target's pipeline,
    /// and for every job of each target its own target depends on.
    pub open spec fn spec_depends_on(self, other: JobDefinition) -> bool {
        ||| (self.target == other.target && other.job_type.spec_rank()
            < self.job_type.spec_rank())
        ||| self.target.spec_deps().contains(other.target)
    }

    /// Whether this job must wait for `other` to finish.
    pub fn depends_on(&self, other: &JobDefinition) -> (r: bool)
        ensures
            r == self.spec_depends_on(*other),
    {
        if self.target == other.target {
            other.job_type.rank() < self.job_type.rank()
        } else {
            let deps = self.target.deps();
            let mut k: usize = 0;
            let mut found = false;
            while k < deps.len()
                invariant
                    k <= deps@.len(),
                    deps@ == self.target.spec_deps(),
                    found == exists|m: int| 0 <= m < k && deps@[m] == other.target,
                decreases deps@.len() - k,
            {
                if deps[k] == other.target {
                    found = true;
                }
                k = k + 1;
            }
            assert(found == self.target.spec_deps().contains(other.target));
            found
        }
    }
}

/// The dependency relation descends strictly in the total order of job
/// definitions: a job's prerequisites all come before it. Since every
/// dependency chain strictly descends, the job dependency relation is
/// acyclic.
pub proof fn lemma_depends_on_descends(a: JobDefinition, b: JobDefinition)
    requires
        a.spec_depends_on(b),
    ensures
        b.spec_order() < a.spec_order(),
{
    if a.target == b.target && b.job_type.spec_rank() < a.job_type.spec_rank() {
    } else {
        crate::target::lemma_deps_are_declared_earlier(a.target, b.target);
        assert(b.job_type.spec_rank() <= 6);
        assert(a.job_type.spec_rank() >= 0);
    }
}

} // verus!
