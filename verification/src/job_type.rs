//! The kinds of jobs that can be scheduled for a target.

use vstd::prelude::*;

verus! {

/// One schedulable kind of work. `Build`, `Install`, `AfterBuild`, `Test`
/// and `Run` carry a production flag; `Lint` and `Clean` do not
/// distinguish development from production.
#[derive(Debug, Clone, Copy, PartialEq, Eq, Hash, Structural)]
pub enum JobType {
    Lint,
    Clean,
    Build { production: bool },
    Install { production: bool },
    AfterBuild { production: bool },
    Test { production: bool },
    Run { production: bool },
}

impl JobType {
    /// The production flag of the job type, if it carries one.
    pub open spec fn spec_is_production(self) -> Option<bool> {
        match self {
            JobType::Lint | JobType::Clean => None,
            JobType::Build { production } => Some(production),
            JobType::Install { production } => Some(production),
            JobType::AfterBuild { production } => Some(production),
            JobType::Test { production } => Some(production),
            JobType::Run { production } => Some(production),
        }
    }

    /// Returns the production flag for the job types that have one.
    pub fn is_production(&self) -> (r: Option<bool>)
        ensures
            r == self.spec_is_production(),
    {
        match self {
            JobType::Lint | JobType::Clean => None,
            JobType::Build { production } => Some(*production),
            JobType::Install { production } => Some(*production),
            JobType::AfterBuild { production } => Some(*production),
            JobType::Test { production } => Some(*production),
            JobType::Run { production } => Some(*production),
        }
    }

    /// True for the job types that belong to the build pipeline of a
    /// target. Only these consult the build cache for a skip decision.
    pub open spec fn spec_is_part_of_build(self) -> bool {
        match self {
            JobType::Build { .. } | JobType::Install { .. } | JobType::AfterBuild { .. } => true,
            JobType::Lint | JobType::Clean | JobType::Test { .. } | JobType::Run { .. } => false,
        }
    }

    /// Whether this job type is part of the build pipeline and therefore
    /// eligible for checksum-based skipping.
    pub fn is_part_of_build(&self) -> (r: bool)
        ensures
            r == self.spec_is_part_of_build(),
    {
        match self {
            JobType::Build { .. } | JobType::Install { .. } | JobType::AfterBuild { .. } => true,
            JobType::Lint | JobType::Clean | JobType::Test { .. } | JobType::Run { .. } => false,
        }
    }

    /// A fixed rank over the job types of one target: jobs of a target
    /// run in rank order (install, then build, then the after-build
    /// steps). The rank also fixes the total order on job definitions.
    pub open spec fn spec_rank(self) -> int {
        match self {
            JobType::Install { .. } => 0,
            JobType::Build { .. } => 1,
            JobType::AfterBuild { .. } => 2,
            JobType::Lint => 3,
            JobType::Clean => 4,
            JobType::Test { .. } => 5,
            JobType::Run { .. } => 6,
        }
    }

    /// The pipeline rank of this job type as a machine integer.
    pub fn rank(&self) -> (r: u8)
        ensures
            r as int == self.spec_rank(),
    {
        match self {
            JobType::Install { .. } => 0,
            JobType::Build { .. } => 1,
            JobType::AfterBuild { .. } => 2,
            JobType::Lint => 3,
            JobType::Clean => 4,
            JobType::Test { .. } => 5,
            JobType::Run { .. } => 6,
        }
    }

    /// The job types that a requested job expands to for each involved
    /// target, in pipeline order. Requesting a build pulls in the
    /// install and after-build steps; every other request stands alone.
    pub open spec fn spec_involved_job_types(self) -> Seq<JobType> {
        match self {
            JobType::Build { production } => seq![
                JobType::Install { production },
                JobType::Build { production },
                JobType::AfterBuild { production },
            ],
            _ => seq![self],
        }
    }

    /// The job types scheduled per target when this job type is
    /// requested, in pipeline order.
    pub fn involved_job_types(&self) -> (r: Vec<JobType>)
        ensures
            r@ == self.spec_involved_job_types(),
            forall|k1: int, k2: int|
                0 <= k1 < k2 < r@.len() ==> r@[k1].spec_rank() < r@[k2].spec_rank(),
    {
        match self {
            JobType::Build { production } => {
                let v = vec![
                    JobType::Install { production: *production },
                    JobType::Build { production: *production },
                    JobType::AfterBuild { production: *production },
                ];
                assert(v@ =~= self.spec_involved_job_types());
                v
            },
            _ => {
                let v = vec![*self];
                assert(v@ =~= self.spec_involved_job_types());
                v
            },
        }
    }
}

} // verus!
