//! The scheduler: drives a job graph to completion, wavefront by
//! wavefront. One control loop owns the whole state; job execution
//! happens outside and reports back one completion at a time. The
//! caller alternates [`Scheduler::spawn_jobs`], which flips every
//! currently runnable job to running and says whether to skip it, with
//! [`Scheduler::on_job_done`], which folds one completion back in.

use vstd::prelude::*;

use crate::alist::{
    alist_distinct, alist_get, alist_lookup, lemma_alist_get_none, lemma_alist_get_push,
};
use crate::checksum_records::{ChecksumCompareResult, ChecksumError, ChecksumRecords};
use crate::job_definition::JobDefinition;
use crate::jobs_resolver::{lemma_job_order_target_monotone, JobGraph};
use crate::spawner::SpawnResult;
use crate::target::{contains_target, Target};

verus! {

/// The current state of one job. A job starts awaiting, is flipped to
/// running when the last of its prerequisites is done, and is done
/// when its result arrives; nothing ever leaves the done state.
#[derive(Debug, Clone, Copy, PartialEq, Eq, Structural)]
pub enum JobPhase {
    /// Waiting for prerequisite jobs to finish.
    Awaiting,
    /// Dispatched; its completion has not arrived yet.
    Running,
    /// Finished; its result has been recorded.
    Done,
}

/// One recorded completion: which job, and what came of it. An `Err`
/// carries the message of a job that could not run at all.
#[derive(Debug)]
pub struct JobResult {
    pub job: JobDefinition,
    pub outcome: Result<SpawnResult, String>,
}

/// Whether a completion counts as a failure: the job could not run, or
/// it ran and did not succeed.
pub open spec fn spec_outcome_failed(outcome: Result<SpawnResult, String>) -> bool {
    match outcome {
        Ok(res) => !res.success,
        Err(_) => true,
    }
}

/// One dispatch instruction of a spawn phase: run the job at
/// `job_index`, skipping its external work when `skip` is set.
#[derive(Debug, Clone)]
pub struct Dispatch {
    /// Index of the job in the graph.
    pub job_index: usize,
    /// The job itself.
    pub job: JobDefinition,
    /// Whether the job's target is provably unchanged, so that the job
    /// runs its lightweight bookkeeping path only.
    pub skip: bool,
}

/// The number of done entries in a phase sequence.
pub open spec fn spec_count_done(s: Seq<JobPhase>) -> int
    decreases s.len(),
{
    if s.len() == 0 {
        0
    } else {
        spec_count_done(s.drop_last()) + if s.last() is Done {
            1int
        } else {
            0int
        }
    }
}

/// Replacing one phase changes the done count by the done-ness of the
/// new and old entries.
proof fn lemma_count_done_update(s: Seq<JobPhase>, j: int, p: JobPhase)
    requires
        0 <= j < s.len(),
    ensures
        spec_count_done(s.update(j, p)) == spec_count_done(s) - (if s[j] is Done {
            1int
        } else {
            0int
        }) + (if p is Done {
            1int
        } else {
            0int
        }),
    decreases s.len(),
{
    let su = s.update(j, p);
    if j == s.len() - 1 {
        assert(su.drop_last() =~= s.drop_last());
    } else {
        assert(su.drop_last() =~= s.drop_last().update(j, p));
        lemma_count_done_update(s.drop_last(), j, p);
        assert(s.drop_last()[j] == s[j]);
    }
}

/// A sequence of done phases counts all its entries.
proof fn lemma_count_done_all(s: Seq<JobPhase>)
    requires
        forall|i: int| 0 <= i < s.len() ==> s[i] is Done,
    ensures
        spec_count_done(s) == s.len(),
    decreases s.len(),
{
    if s.len() > 0 {
        assert(forall|i: int| 0 <= i < s.len() - 1 ==> s.drop_last()[i] == s[i]);
        lemma_count_done_all(s.drop_last());
    }
}

/// The verdict that a spawn phase memoizes for a target it consults
/// for the first time: the fresh compare verdict of the cache, capped
/// at changed unless every declared dependency of the target is
/// memoized (in the given memo) as unchanged.
#[verifier::opaque]
pub open spec fn spec_fresh_verdict(
    memo: Seq<(Target, ChecksumCompareResult)>,
    cache: ChecksumRecords,
    t: Target,
) -> ChecksumCompareResult {
    if (forall|d: Target| #[trigger]
        t.spec_deps().contains(d) ==> alist_get(memo, d) == Some(ChecksumCompareResult::Same)) {
        match cache.spec_compare(t) {
            Ok(v) => v,
            Err(_) => ChecksumCompareResult::Changed,
        }
    } else {
        ChecksumCompareResult::Changed
    }
}

/// A target consulted among the first `n1` jobs is consulted among
/// any longer prefix.
proof fn lemma_consults_before_monotone(s: Scheduler, t: Target, n1: int, n2: int)
    requires
        n1 <= n2,
        s.spec_consults_before(t, n1),
    ensures
        s.spec_consults_before(t, n2),
{
    let i2 = choose|i2: int|
        0 <= i2 < n1 && #[trigger] s.spec_runnable(i2) && s.graph.jobs@[i2].target == t
            && s.graph.jobs@[i2].job_type.spec_is_part_of_build() && !s.failed_targets@.contains(
            t,
        );
    assert(0 <= i2 < n2 && s.spec_runnable(i2) && s.graph.jobs@[i2].target == t
        && s.graph.jobs@[i2].job_type.spec_is_part_of_build() && !s.failed_targets@.contains(t));
}

/// The scheduler state of one run: the job graph, each job's phase,
/// the collected results, the failed targets, and the run-scoped memo
/// of checksum compare verdicts. Exactly one control loop mutates it.
#[derive(Debug)]
pub struct Scheduler {
    /// The resolved job graph of the run.
    pub graph: JobGraph,
    /// The phase of each job, indexed as the graph's jobs.
    pub phases: Vec<JobPhase>,
    /// Whether the run stops at the first observed failure.
    pub fail_fast: bool,
    /// Whether an interrupt was delivered: no job is dispatched after
    /// it, but completions of running jobs are still folded in.
    pub interrupted: bool,
    /// Whether fail-fast has triggered: the run is over and already
    /// collected results are returned as they are.
    pub finished_early: bool,
    /// One entry per completion, in arrival order.
    pub results: Vec<JobResult>,
    /// The targets of the failed jobs, in failure order.
    pub failed_targets: Vec<Target>,
    /// The run-scoped memo of compare verdicts, one per target.
    pub checksum_memo: Vec<(Target, ChecksumCompareResult)>,
}

impl Scheduler {
    /// Whether every prerequisite of job `i` is done.
    pub open spec fn spec_deps_done(self, i: int) -> bool {
        forall|k: int|
            0 <= k < self.graph.deps@[i]@.len() ==> self.phases@[(
            #[trigger] self.graph.deps@[i]@[k]) as int] is Done
    }

    /// Whether job `i` can be dispatched now: it is awaiting and its
    /// prerequisites are all done.
    pub open spec fn spec_runnable(self, i: int) -> bool {
        &&& self.phases@[i] is Awaiting
        &&& self.spec_deps_done(i)
    }

    /// Whether the run is over without being complete: interrupted, or
    /// returned early under fail-fast.
    pub open spec fn spec_halted(self) -> bool {
        self.interrupted || self.finished_early
    }

    /// Whether one of the first `n` jobs makes the spawn phase consult
    /// the cache for this target: a runnable build-pipeline job of a
    /// target that has not failed.
    pub open spec fn spec_consults_before(self, t: Target, n: int) -> bool {
        exists|i: int|
            0 <= i < n && #[trigger] self.spec_runnable(i) && self.graph.jobs@[i].target == t
                && self.graph.jobs@[i].job_type.spec_is_part_of_build()
                && !self.failed_targets@.contains(t)
    }

    /// Whether every job of the run is done.
    pub open spec fn spec_all_done(self) -> bool {
        forall|i: int| 0 <= i < self.phases@.len() ==> self.phases@[i] is Done
    }

    /// The scheduler invariant.
    pub open spec fn wf(self) -> bool {
        &&& self.graph.wf()
        &&& self.phases@.len() == self.graph.jobs@.len()
        // One result was recorded per done job.
        &&& self.results@.len() == spec_count_done(self.phases@)
        // A job is dispatched only once its prerequisites are done,
        // and they stay done.
        &&& (forall|i: int|
            0 <= i < self.phases@.len() && !((#[trigger] self.phases@[i]) is Awaiting)
                ==> self.spec_deps_done(i))
        // The compare memo is keyed by target ...
        &&& alist_distinct(self.checksum_memo@)
        // ... and a target is remembered as unchanged only if every
        // target it depends on is remembered as unchanged too.
        &&& (forall|t: Target, d: Target|
            #![trigger alist_get(self.checksum_memo@, t), t.spec_deps().contains(d)]
            alist_get(self.checksum_memo@, t) == Some(ChecksumCompareResult::Same)
                && t.spec_deps().contains(d) ==> alist_get(self.checksum_memo@, d) == Some(
                ChecksumCompareResult::Same,
            ))
        &&& (self.finished_early ==> self.fail_fast)
    }

    /// Creates the scheduler for a resolved job graph: every job
    /// awaiting, nothing recorded yet.
    pub fn new(graph: JobGraph, fail_fast: bool) -> (r: Scheduler)
        requires
            graph.wf(),
        ensures
            r.wf(),
            r.graph == graph,
            r.fail_fast == fail_fast,
            !r.interrupted,
            !r.finished_early,
            r.results@.len() == 0,
            r.failed_targets@.len() == 0,
            r.checksum_memo@.len() == 0,
            r.phases@.len() == graph.jobs@.len(),
            forall|i: int| 0 <= i < r.phases@.len() ==> r.phases@[i] is Awaiting,
    {
        let n = graph.jobs.len();
        let mut phases: Vec<JobPhase> = Vec::new();
        while phases.len() < n
            invariant
                phases@.len() <= n,
                spec_count_done(phases@) == 0,
                forall|i: int| 0 <= i < phases@.len() ==> phases@[i] is Awaiting,
            decreases n - phases@.len(),
        {
            let ghost old_phases = phases@;
            phases.push(JobPhase::Awaiting);
            assert(phases@.drop_last() =~= old_phases);
        }
        Scheduler {
            graph,
            phases,
            fail_fast,
            interrupted: false,
            finished_early: false,
            results: Vec::new(),
            failed_targets: Vec::new(),
            checksum_memo: Vec::new(),
        }
    }

    /// The phase of the job at the given index.
    pub fn phase(&self, i: usize) -> (r: JobPhase)
        requires
            i < self.phases@.len(),
        ensures
            r == self.phases@[i as int],
    {
        self.phases[i]
    }

    /// Whether every job of the run is done.
    pub fn all_done(&self) -> (r: bool)
        ensures
            r == self.spec_all_done(),
    {
        let mut i: usize = 0;
        while i < self.phases.len()
            invariant
                i <= self.phases@.len(),
                forall|k: int| 0 <= k < i ==> self.phases@[k] is Done,
            decreases self.phases@.len() - i,
        {
            match self.phases[i] {
                JobPhase::Done => {},
                _ => {
                    return false;
                },
            }
            i = i + 1;
        }
        true
    }

    /// Records that a process-wide interrupt was delivered: the spawn
    /// phase dispatches nothing from here on; completions of already
    /// running jobs are still folded in.
    pub fn interrupt(&mut self)
        requires
            old(self).wf(),
        ensures
            final(self).wf(),
            final(self).interrupted,
            final(self).graph == old(self).graph,
            final(self).phases == old(self).phases,
            final(self).fail_fast == old(self).fail_fast,
            final(self).finished_early == old(self).finished_early,
            final(self).results == old(self).results,
            final(self).failed_targets == old(self).failed_targets,
            final(self).checksum_memo == old(self).checksum_memo,
    {
        self.interrupted = true;
    }

    /// Scans the jobs in their total order and dispatches every job
    /// whose prerequisites are all done, flipping it to running. For
    /// each dispatched job the returned instruction says whether its
    /// external work is skipped: only build-pipeline jobs are skipped,
    /// never for a target that has already failed (the failure must
    /// stay visible), and otherwise exactly when the target's memoized
    /// compare verdict says it is unchanged. A fresh verdict is
    /// memoized as unchanged only if the fresh fingerprint compare says
    /// so and every declared dependency of the target is already
    /// memoized as unchanged. Each target consulted for the first
    /// time — and nothing else — is registered with the cache, which
    /// is what a later `update_and_save` persists afresh. Returns an
    /// error, aborting the run, exactly when the cache cannot answer a
    /// needed compare (a first-consulted target without a current
    /// fingerprint); it never guesses, and with every needed
    /// fingerprint at hand it succeeds.
    #[verifier::rlimit(100)]
    pub fn spawn_jobs(&mut self, cache: &mut ChecksumRecords) -> (r: Result<
        Vec<Dispatch>,
        ChecksumError,
    >)
        requires
            old(self).wf(),
            old(cache).wf(),
        ensures
            final(self).wf(),
            final(cache).wf(),
            final(self).graph == old(self).graph,
            final(self).fail_fast == old(self).fail_fast,
            final(self).interrupted == old(self).interrupted,
            final(self).finished_early == old(self).finished_early,
            final(self).results == old(self).results,
            final(self).failed_targets == old(self).failed_targets,
            final(cache).production == old(cache).production,
            final(cache).saved@ == old(cache).saved@,
            final(cache).current@ == old(cache).current@,
            final(self).phases@.len() == old(self).phases@.len(),
            // A phase changes only from awaiting to running (and only
            // for a job whose prerequisites were done).
            forall|i: int|
                0 <= i < old(self).phases@.len() ==> final(self).phases@[i] == old(self).phases@[i] || (old(self).spec_runnable(i) && final(self).phases@[i]
                    is Running),
            // Memoized verdicts are never changed, only added.
            forall|t: Target|
                alist_get(old(self).checksum_memo@, t) is Some ==> alist_get(
                    final(self).checksum_memo@,
                    t,
                ) == alist_get(old(self).checksum_memo@, t),
            // Success is owed: the spawn phase fails only when a
            // needed consultation cannot be answered. With a current
            // fingerprint for every target consulted for the first
            // time, the phase returns its dispatches.
            (forall|t: Target|
                (#[trigger] old(self).spec_consults_before(t, old(self).phases@.len() as int))
                    && alist_get(old(self).checksum_memo@, t) is None ==> alist_get(
                    old(cache).current@,
                    t,
                ) is Some) ==> r is Ok,
            match r {
                Ok(ds) => {
                    // Nothing is dispatched after an interrupt or an
                    // early return.
                    &&& (old(self).spec_halted() ==> ds@.len() == 0 && *final(self) == *old(self)
                        && *final(cache) == *old(cache))
                    // Exactly the runnable jobs are dispatched ...
                    &&& (!old(self).spec_halted() ==> (forall|i: int|
                        0 <= i < old(self).phases@.len()
                            ==> final(self).phases@[i] == if old(self).spec_runnable(i) {
                            JobPhase::Running
                        } else {
                            old(self).phases@[i]
                        }))
                    &&& (!old(self).spec_halted() ==> (forall|i: int|
                        0 <= i < old(self).phases@.len() && old(self).spec_runnable(i)
                            ==> exists|k: int|
                            0 <= k < ds@.len() && (#[trigger] ds@[k]).job_index == i))
                    // ... each only after every job in its original
                    // dependency list is done, in the job order.
                    &&& (forall|k: int|
                        0 <= k < ds@.len() ==> {
                            let d = #[trigger] ds@[k];
                            &&& d.job_index < old(self).phases@.len()
                            &&& old(self).spec_runnable(d.job_index as int)
                            &&& d.job == old(self).graph.jobs@[d.job_index as int]
                        })
                    &&& (forall|k1: int, k2: int|
                        0 <= k1 < k2 < ds@.len() ==> (#[trigger] ds@[k1]).job_index < (
                        #[trigger] ds@[k2]).job_index)
                    // The skip decision, against the memo as it stands
                    // after this spawn phase.
                    &&& (forall|k: int|
                        0 <= k < ds@.len() ==> ((#[trigger] ds@[k]).skip <==> (
                        ds@[k].job.job_type.spec_is_part_of_build() && !old(self).failed_targets@.contains(ds@[k].job.target) && alist_get(
                            final(self).checksum_memo@,
                            ds@[k].job.target,
                        ) == Some(ChecksumCompareResult::Same))))
                    // The memo after the phase: a verdict is added for
                    // exactly the targets consulted for the first
                    // time, and it is the fresh verdict.
                    &&& (!old(self).spec_halted() ==> (forall|t: Target| #[trigger]
                        alist_get(final(self).checksum_memo@, t) == (if alist_get(
                            old(self).checksum_memo@,
                            t,
                        ) is Some {
                            alist_get(old(self).checksum_memo@, t)
                        } else if old(self).spec_consults_before(
                            t,
                            old(self).phases@.len() as int,
                        ) {
                            Some(spec_fresh_verdict(final(self).checksum_memo@, *old(cache), t))
                        } else {
                            None
                        })))
                    // Where a fresh verdict rests on a compare, the
                    // cache had an answer (else the phase would have
                    // aborted with its error instead).
                    &&& (!old(self).spec_halted() ==> (forall|t: Target|
                        (#[trigger] old(self).spec_consults_before(
                            t,
                            old(self).phases@.len() as int,
                        )) && alist_get(old(self).checksum_memo@, t) is None && (forall|d: Target|
                            #[trigger] t.spec_deps().contains(d) ==> alist_get(
                                final(self).checksum_memo@,
                                d,
                            ) == Some(ChecksumCompareResult::Same))
                            ==> old(cache).spec_compare(t) is Ok))
                    // The cache is registered for exactly the targets
                    // consulted for the first time — what
                    // update_and_save later persists afresh. In
                    // particular a phase without cache-eligible jobs
                    // registers nothing.
                    &&& (!old(self).spec_halted() ==> (forall|t: Target| #[trigger]
                        final(cache).involved@.contains(t) <==> (old(cache).involved@.contains(t)
                            || (old(self).spec_consults_before(
                            t,
                            old(self).phases@.len() as int,
                        ) && alist_get(old(self).checksum_memo@, t) is None))))
                },
                Err(e) => {
                    // The phase aborts only over a target it truly had
                    // to consult: a first-consulted target whose
                    // current fingerprint the cache lacks. The run
                    // aborts rather than guess. The registration set
                    // has grown by first-consulted targets only.
                    &&& (match e {
                        ChecksumError::MissingFingerprint(t) => {
                            &&& alist_get(old(cache).current@, t) is None
                            &&& !old(self).spec_halted()
                            &&& old(self).spec_consults_before(
                                t,
                                old(self).phases@.len() as int,
                            )
                            &&& alist_get(old(self).checksum_memo@, t) is None
                        },
                    })
                    &&& (forall|t: Target|
                        old(cache).involved@.contains(t) ==> final(cache).involved@.contains(t))
                    &&& (forall|t: Target| #[trigger]
                        final(cache).involved@.contains(t) ==> (old(cache).involved@.contains(t)
                            || (old(self).spec_consults_before(
                            t,
                            old(self).phases@.len() as int,
                        ) && alist_get(old(self).checksum_memo@, t) is None)))
                },
            },
    {
        if self.interrupted || self.finished_early {
            return Ok(Vec::new());
        }
        let ghost pre = *self;
        let ghost cache0 = *cache;
        let mut ds: Vec<Dispatch> = Vec::new();
        let mut i: usize = 0;
        while i < self.phases.len()
            invariant
                pre == *old(self),
                cache0 == *old(cache),
                !pre.spec_halted(),
                self.graph == pre.graph,
                self.fail_fast == pre.fail_fast,
                self.interrupted == pre.interrupted,
                self.finished_early == pre.finished_early,
                self.results == pre.results,
                self.failed_targets == pre.failed_targets,
                cache.wf(),
                cache.production == cache0.production,
                cache.saved@ == cache0.saved@,
                cache.current@ == cache0.current@,
                pre.wf(),
                self.wf(),
                i <= self.phases@.len(),
                self.phases@.len() == pre.phases@.len(),
                forall|i2: int|
                    0 <= i2 < self.phases@.len() ==> (#[trigger] self.phases@[i2]) == if i2 < i
                        && pre.spec_runnable(i2) {
                        JobPhase::Running
                    } else {
                        pre.phases@[i2]
                    },
                forall|t: Target|
                    alist_get(pre.checksum_memo@, t) is Some ==> alist_get(
                        self.checksum_memo@,
                        t,
                    ) == alist_get(pre.checksum_memo@, t),
                forall|t: Target| #[trigger]
                    alist_get(self.checksum_memo@, t) == (if alist_get(
                        pre.checksum_memo@,
                        t,
                    ) is Some {
                        alist_get(pre.checksum_memo@, t)
                    } else if pre.spec_consults_before(t, i as int) {
                        Some(spec_fresh_verdict(self.checksum_memo@, cache0, t))
                    } else {
                        None
                    }),
                forall|t: Target|
                    (#[trigger] pre.spec_consults_before(t, i as int)) && alist_get(
                        pre.checksum_memo@,
                        t,
                    ) is None && (forall|d: Target| #[trigger]
                        t.spec_deps().contains(d) ==> alist_get(self.checksum_memo@, d) == Some(
                            ChecksumCompareResult::Same,
                        )) ==> cache0.spec_compare(t) is Ok,
                forall|t: Target| #[trigger]
                    cache.involved@.contains(t) <==> (cache0.involved@.contains(t) || (
                    pre.spec_consults_before(t, i as int) && alist_get(
                        pre.checksum_memo@,
                        t,
                    ) is None)),
                forall|i2: int|
                    0 <= i2 < i && pre.spec_runnable(i2) ==> exists|k: int|
                        0 <= k < ds@.len() && (#[trigger] ds@[k]).job_index == i2,
                forall|k: int|
                    0 <= k < ds@.len() ==> {
                        let d = #[trigger] ds@[k];
                        &&& d.job_index < i
                        &&& pre.spec_runnable(d.job_index as int)
                        &&& d.job == pre.graph.jobs@[d.job_index as int]
                    },
                forall|k1: int, k2: int|
                    0 <= k1 < k2 < ds@.len() ==> (#[trigger] ds@[k1]).job_index < (
                    #[trigger] ds@[k2]).job_index,
                forall|k: int|
                    0 <= k < ds@.len() ==> ((#[trigger] ds@[k]).skip <==> (
                    ds@[k].job.job_type.spec_is_part_of_build()
                        && !pre.failed_targets@.contains(ds@[k].job.target) && alist_get(
                        self.checksum_memo@,
                        ds@[k].job.target,
                    ) == Some(ChecksumCompareResult::Same))),
                forall|k: int|
                    0 <= k < ds@.len() && (#[trigger] ds@[k]).job.job_type.spec_is_part_of_build()
                        && !pre.failed_targets@.contains(ds@[k].job.target) ==> alist_get(
                        self.checksum_memo@,
                        ds@[k].job.target,
                    ) is Some,
            decreases self.phases@.len() - i,
        {
            match self.spawn_step(cache, i, &mut ds, Ghost(pre), Ghost(cache0)) {
                Ok(()) => {},
                Err(e) => {
                    proof {
                        let n = pre.phases@.len() as int;
                        match e {
                            ChecksumError::MissingFingerprint(t) => {
                                lemma_consults_before_monotone(pre, t, i as int + 1, n);
                            },
                        }
                        assert forall|t2: Target| #[trigger]
                            cache.involved@.contains(t2) implies (cache0.involved@.contains(t2)
                            || (pre.spec_consults_before(t2, n) && alist_get(
                            pre.checksum_memo@,
                            t2,
                        ) is None)) by {
                            if !cache0.involved@.contains(t2) {
                                lemma_consults_before_monotone(pre, t2, i as int + 1, n);
                            }
                        }
                    }
                    return Err(e);
                },
            }
            i = i + 1;
        }
        assert forall|i2: int| 0 <= i2 < self.phases@.len() implies self.phases@[i2] == (
        if pre.spec_runnable(i2) {
            JobPhase::Running
        } else {
            pre.phases@[i2]
        }) by {}
        Ok(ds)
    }

    /// One step of the spawn phase: looks at job `i` and, when it is
    /// runnable, decides its skip, dispatches it and flips it to
    /// running. The contract carries the spawn phase's whole loop
    /// invariant from `i` to `i + 1`; `pre` is the state the phase
    /// started from and `cache0` the cache it started with.
    #[verifier::rlimit(100)]
    #[verifier::spinoff_prover]
    fn spawn_step(
        &mut self,
        cache: &mut ChecksumRecords,
        i: usize,
        ds: &mut Vec<Dispatch>,
        Ghost(pre): Ghost<Scheduler>,
        Ghost(cache0): Ghost<ChecksumRecords>,
    ) -> (r: Result<(), ChecksumError>)
        requires
            pre.wf(),
            old(self).wf(),
            old(cache).wf(),
            old(self).graph == pre.graph,
            old(self).fail_fast == pre.fail_fast,
            old(self).interrupted == pre.interrupted,
            old(self).finished_early == pre.finished_early,
            old(self).results == pre.results,
            old(self).failed_targets == pre.failed_targets,
            old(cache).production == cache0.production,
            old(cache).saved@ == cache0.saved@,
            old(cache).current@ == cache0.current@,
            i < old(self).phases@.len(),
            old(self).phases@.len() == pre.phases@.len(),
            forall|i2: int|
                0 <= i2 < old(self).phases@.len() ==> (#[trigger] old(self).phases@[i2]) == if i2
                    < i && pre.spec_runnable(i2) {
                    JobPhase::Running
                } else {
                    pre.phases@[i2]
                },
            forall|t: Target|
                alist_get(pre.checksum_memo@, t) is Some ==> alist_get(
                    old(self).checksum_memo@,
                    t,
                ) == alist_get(pre.checksum_memo@, t),
            forall|t: Target| #[trigger]
                alist_get(old(self).checksum_memo@, t) == (if alist_get(
                    pre.checksum_memo@,
                    t,
                ) is Some {
                    alist_get(pre.checksum_memo@, t)
                } else if pre.spec_consults_before(t, i as int) {
                    Some(spec_fresh_verdict(old(self).checksum_memo@, cache0, t))
                } else {
                    None
                }),
            forall|t: Target|
                (#[trigger] pre.spec_consults_before(t, i as int)) && alist_get(
                    pre.checksum_memo@,
                    t,
                ) is None && (forall|d: Target| #[trigger]
                    t.spec_deps().contains(d) ==> alist_get(old(self).checksum_memo@, d) == Some(
                        ChecksumCompareResult::Same,
                    )) ==> cache0.spec_compare(t) is Ok,
            forall|t: Target| #[trigger]
                old(cache).involved@.contains(t) <==> (cache0.involved@.contains(t) || (
                pre.spec_consults_before(t, i as int) && alist_get(
                    pre.checksum_memo@,
                    t,
                ) is None)),
            forall|i2: int|
                0 <= i2 < i && pre.spec_runnable(i2) ==> exists|k: int|
                    0 <= k < old(ds)@.len() && (#[trigger] old(ds)@[k]).job_index == i2,
            forall|k: int|
                0 <= k < old(ds)@.len() ==> {
                    let d = #[trigger] old(ds)@[k];
                    &&& d.job_index < i
                    &&& pre.spec_runnable(d.job_index as int)
                    &&& d.job == pre.graph.jobs@[d.job_index as int]
                },
            forall|k1: int, k2: int|
                0 <= k1 < k2 < old(ds)@.len() ==> (#[trigger] old(ds)@[k1]).job_index < (
                #[trigger] old(ds)@[k2]).job_index,
            forall|k: int|
                0 <= k < old(ds)@.len() ==> ((#[trigger] old(ds)@[k]).skip <==> (
                old(ds)@[k].job.job_type.spec_is_part_of_build() && !pre.failed_targets@.contains(
                    old(ds)@[k].job.target,
                ) && alist_get(old(self).checksum_memo@, old(ds)@[k].job.target) == Some(
                    ChecksumCompareResult::Same,
                ))),
            forall|k: int|
                0 <= k < old(ds)@.len() && (#[trigger] old(ds)@[k]).job.job_type.spec_is_part_of_build() && !pre.failed_targets@.contains(
                    old(ds)@[k].job.target,
                ) ==> alist_get(old(self).checksum_memo@, old(ds)@[k].job.target) is Some,
        ensures
            final(self).wf(),
            final(cache).wf(),
            final(self).graph == pre.graph,
            final(self).fail_fast == pre.fail_fast,
            final(self).interrupted == pre.interrupted,
            final(self).finished_early == pre.finished_early,
            final(self).results == pre.results,
            final(self).failed_targets == pre.failed_targets,
            final(cache).production == cache0.production,
            final(cache).saved@ == cache0.saved@,
            final(cache).current@ == cache0.current@,
            final(self).phases@.len() == pre.phases@.len(),
            forall|t: Target|
                alist_get(pre.checksum_memo@, t) is Some ==> alist_get(
                    final(self).checksum_memo@,
                    t,
                ) == alist_get(pre.checksum_memo@, t),
            // The registration set after the step: exactly the targets
            // consulted for the first time among the first i + 1 jobs
            // have been added.
            forall|t: Target| #[trigger]
                final(cache).involved@.contains(t) <==> (cache0.involved@.contains(t) || (
                pre.spec_consults_before(t, i as int + 1) && alist_get(
                    pre.checksum_memo@,
                    t,
                ) is None)),
            match r {
                Ok(_) => {
                    &&& (forall|i2: int|
                        0 <= i2 < final(self).phases@.len() ==> (#[trigger] final(self).phases@[i2]) == if i2 < i + 1 && pre.spec_runnable(i2) {
                            JobPhase::Running
                        } else {
                            pre.phases@[i2]
                        })
                    &&& (forall|t: Target| #[trigger]
                        alist_get(final(self).checksum_memo@, t) == (if alist_get(
                            pre.checksum_memo@,
                            t,
                        ) is Some {
                            alist_get(pre.checksum_memo@, t)
                        } else if pre.spec_consults_before(t, i as int + 1) {
                            Some(spec_fresh_verdict(final(self).checksum_memo@, cache0, t))
                        } else {
                            None
                        }))
                    &&& (forall|t: Target|
                        (#[trigger] pre.spec_consults_before(t, i as int + 1)) && alist_get(
                            pre.checksum_memo@,
                            t,
                        ) is None && (forall|d: Target| #[trigger]
                            t.spec_deps().contains(d) ==> alist_get(
                                final(self).checksum_memo@,
                                d,
                            ) == Some(ChecksumCompareResult::Same)) ==> cache0.spec_compare(t)
                            is Ok)
                    &&& (forall|i2: int|
                        0 <= i2 < i + 1 && pre.spec_runnable(i2) ==> exists|k: int|
                            0 <= k < final(ds)@.len() && (#[trigger] final(ds)@[k]).job_index
                                == i2)
                    &&& (forall|k: int|
                        0 <= k < final(ds)@.len() ==> {
                            let d = #[trigger] final(ds)@[k];
                            &&& d.job_index < i + 1
                            &&& pre.spec_runnable(d.job_index as int)
                            &&& d.job == pre.graph.jobs@[d.job_index as int]
                        })
                    &&& (forall|k1: int, k2: int|
                        0 <= k1 < k2 < final(ds)@.len() ==> (#[trigger] final(ds)@[k1]).job_index < (#[trigger] final(ds)@[k2]).job_index)
                    &&& (forall|k: int|
                        0 <= k < final(ds)@.len() ==> ((#[trigger] final(ds)@[k]).skip <==> (
                        final(ds)@[k].job.job_type.spec_is_part_of_build()
                            && !pre.failed_targets@.contains(final(ds)@[k].job.target)
                            && alist_get(
                            final(self).checksum_memo@,
                            final(ds)@[k].job.target,
                        ) == Some(ChecksumCompareResult::Same))))
                    &&& (forall|k: int|
                        0 <= k < final(ds)@.len() && (#[trigger] final(ds)@[k]).job.job_type.spec_is_part_of_build()
                            && !pre.failed_targets@.contains(final(ds)@[k].job.target)
                            ==> alist_get(
                            final(self).checksum_memo@,
                            final(ds)@[k].job.target,
                        ) is Some)
                },
                Err(e) => {
                    &&& *final(self) == *old(self)
                    &&& *final(ds) == *old(ds)
                    &&& (match e {
                        ChecksumError::MissingFingerprint(t) => {
                            &&& alist_get(cache0.current@, t) is None
                            &&& pre.spec_consults_before(t, i as int + 1)
                            &&& alist_get(pre.checksum_memo@, t) is None
                        },
                    })
                },
            },
    {
        let ghost top = *self;
        let runnable = match self.phases[i] {
            JobPhase::Awaiting => {
                let dep_list = &self.graph.deps[i];
                let mut all_deps_done = true;
                let mut k: usize = 0;
                while k < dep_list.len()
                    invariant
                        k <= dep_list@.len(),
                        dep_list@ == self.graph.deps@[i as int]@,
                        i < self.phases@.len(),
                        self.graph.wf(),
                        self.phases@.len() == self.graph.jobs@.len(),
                        all_deps_done == (forall|k2: int|
                            0 <= k2 < k ==> self.phases@[(#[trigger] dep_list@[k2]) as int]
                                is Done),
                    decreases dep_list@.len() - k,
                {
                    let dep = dep_list[k];
                    match self.phases[dep] {
                        JobPhase::Done => {},
                        _ => {
                            all_deps_done = false;
                        },
                    }
                    k = k + 1;
                }
                all_deps_done
            },
            _ => false,
        };
        assert(runnable == pre.spec_runnable(i as int)) by {
            assert(self.phases@[i as int] == pre.phases@[i as int]);
            if self.phases@[i as int] is Awaiting {
                assert forall|k2: int|
                    0 <= k2 < self.graph.deps@[i as int]@.len() implies (self.phases@[(
                #[trigger] self.graph.deps@[i as int]@[k2]) as int] is Done <==> pre.phases@[(
                self.graph.deps@[i as int]@[k2]) as int] is Done) by {
                    let j2 = self.graph.deps@[i as int]@[k2] as int;
                    assert(self.phases@[j2] == if j2 < i && pre.spec_runnable(j2) {
                        JobPhase::Running
                    } else {
                        pre.phases@[j2]
                    });
                }
            }
        }
        // Index i extends the consulted range by this job's target
        // exactly when the job is a runnable, cache-eligible job of
        // a target that has not failed.
        assert forall|t2: Target| #[trigger]
            pre.spec_consults_before(t2, i as int + 1) <==> (pre.spec_consults_before(
            t2,
            i as int,
        ) || (pre.spec_runnable(i as int) && pre.graph.jobs@[i as int].target == t2
            && pre.graph.jobs@[i as int].job_type.spec_is_part_of_build()
            && !pre.failed_targets@.contains(t2))) by {
            if pre.spec_consults_before(t2, i as int + 1) {
                let i2 = choose|i2: int|
                    0 <= i2 < i + 1 && #[trigger] pre.spec_runnable(i2)
                        && pre.graph.jobs@[i2].target == t2
                        && pre.graph.jobs@[i2].job_type.spec_is_part_of_build()
                        && !pre.failed_targets@.contains(t2);
                if i2 < i {
                    assert(pre.spec_consults_before(t2, i as int));
                }
            }
            if pre.spec_consults_before(t2, i as int) {
                let i2 = choose|i2: int|
                    0 <= i2 < i && #[trigger] pre.spec_runnable(i2)
                        && pre.graph.jobs@[i2].target == t2
                        && pre.graph.jobs@[i2].job_type.spec_is_part_of_build()
                        && !pre.failed_targets@.contains(t2);
                assert(pre.spec_consults_before(t2, i as int + 1));
            }
        }
        let ghost memo_top = self.checksum_memo@;
        let ghost tc = pre.graph.jobs@[i as int].target;
        let ghost consulted_now = pre.spec_runnable(i as int)
            && pre.graph.jobs@[i as int].job_type.spec_is_part_of_build()
            && !pre.failed_targets@.contains(tc) && alist_get(memo_top, tc) is None;
        if runnable {
            let jd = self.graph.jobs[i];
            assert(jd == pre.graph.jobs@[i as int]);
            // The skip decision; only build-pipeline jobs consult the
            // cache, and a target that already failed is never skipped
            // so that the failure stays visible.
            let skip: bool = if jd.job_type.is_part_of_build() {
                if contains_target(&self.failed_targets, jd.target) {
                    false
                } else {
                    match alist_lookup(&self.checksum_memo, jd.target) {
                        Some(verdict) => verdict == ChecksumCompareResult::Same,
                        None => {
                            proof {
                                assert(consulted_now);
                                assert(alist_get(pre.checksum_memo@, tc) is None);
                                assert(pre.spec_consults_before(tc, i as int + 1));
                            }
                            match self.consult_cache(cache, jd.target) {
                                Ok(s) => s,
                                Err(e) => {
                                    // The registration set at i + 1:
                                    // this target was added; nothing
                                    // else changed.
                                    assert forall|t2: Target| #[trigger]
                                        cache.involved@.contains(t2) <==> (
                                    cache0.involved@.contains(t2) || (pre.spec_consults_before(
                                        t2,
                                        i as int + 1,
                                    ) && alist_get(pre.checksum_memo@, t2) is None)) by {
                                        if t2 != tc {
                                            assert(pre.spec_consults_before(t2, i as int + 1)
                                                == pre.spec_consults_before(t2, i as int));
                                        }
                                    }
                                    return Err(e);
                                },
                            }
                        },
                    }
                }
            } else {
                false
            };
            // The memo is unchanged, unless this target was consulted
            // for the first time, in which case it gained exactly that
            // target's fresh verdict.
            assert(!consulted_now ==> self.checksum_memo@ == memo_top);
            assert(consulted_now ==> (forall|t2: Target| #[trigger]
                alist_get(self.checksum_memo@, t2) == (if t2 == jd.target {
                    Some(spec_fresh_verdict(self.checksum_memo@, cache0, jd.target))
                } else {
                    alist_get(memo_top, t2)
                }))) by {
                if consulted_now {
                    assert(cache0.spec_compare(jd.target) == old(cache).spec_compare(jd.target));
                    assert(spec_fresh_verdict(self.checksum_memo@, cache0, jd.target)
                        == spec_fresh_verdict(self.checksum_memo@, *old(cache), jd.target)) by {
                        reveal(spec_fresh_verdict);
                    }
                }
            }
            // The verdict formula of every target consulted earlier in
            // the phase is untouched too: the new entry's target has
            // its jobs no earlier, so it is no dependency of theirs.
            assert forall|t2: Target|
                alist_get(pre.checksum_memo@, t2) is None && pre.spec_consults_before(
                    t2,
                    i as int,
                ) && consulted_now && t2 != jd.target implies spec_fresh_verdict(
                self.checksum_memo@,
                cache0,
                t2,
            ) == spec_fresh_verdict(memo_top, cache0, t2) && (forall|d: Target| #[trigger]
                t2.spec_deps().contains(d) ==> alist_get(self.checksum_memo@, d) == alist_get(
                    memo_top,
                    d,
                )) by {
                if alist_get(pre.checksum_memo@, t2) is None && pre.spec_consults_before(
                    t2,
                    i as int,
                ) && consulted_now && t2 != jd.target {
                    assert forall|d: Target| #[trigger]
                        t2.spec_deps().contains(d) implies alist_get(self.checksum_memo@, d)
                        == alist_get(memo_top, d) by {
                        if d == jd.target {
                            let i2 = choose|i2: int|
                                0 <= i2 < i && #[trigger] pre.spec_runnable(i2)
                                    && pre.graph.jobs@[i2].target == t2
                                    && pre.graph.jobs@[i2].job_type.spec_is_part_of_build()
                                    && !pre.failed_targets@.contains(t2);
                            lemma_job_order_target_monotone(pre.graph, i2, i as int);
                            crate::target::lemma_deps_are_declared_earlier(t2, jd.target);
                            assert(false);
                        }
                    }
                    assert(spec_fresh_verdict(self.checksum_memo@, cache0, t2)
                        == spec_fresh_verdict(memo_top, cache0, t2)) by {
                        reveal(spec_fresh_verdict);
                    }
                }
            }
            // The whole memo matches the verdict formula at i + 1.
            assert forall|t2: Target| #[trigger]
                alist_get(self.checksum_memo@, t2) == (if alist_get(
                    pre.checksum_memo@,
                    t2,
                ) is Some {
                    alist_get(pre.checksum_memo@, t2)
                } else if pre.spec_consults_before(t2, i as int + 1) {
                    Some(spec_fresh_verdict(self.checksum_memo@, cache0, t2))
                } else {
                    None
                }) by {
                if t2 == jd.target && consulted_now {
                    assert(alist_get(pre.checksum_memo@, t2) is None);
                    assert(pre.spec_consults_before(t2, i as int + 1));
                } else if consulted_now {
                    assert(alist_get(self.checksum_memo@, t2) == alist_get(memo_top, t2));
                } else {
                    assert(self.checksum_memo@ == memo_top);
                }
            }
            // Where the formula rests on a fresh compare, the cache
            // answered.
            assert forall|t2: Target|
                (#[trigger] pre.spec_consults_before(t2, i as int + 1)) && alist_get(
                    pre.checksum_memo@,
                    t2,
                ) is None && (forall|d: Target| #[trigger]
                    t2.spec_deps().contains(d) ==> alist_get(self.checksum_memo@, d) == Some(
                        ChecksumCompareResult::Same,
                    )) implies cache0.spec_compare(t2) is Ok by {
                if t2 == jd.target && consulted_now {
                    assert(cache0.spec_compare(jd.target) == old(cache).spec_compare(jd.target));
                } else {
                    if consulted_now {
                        assert forall|d: Target| #[trigger]
                            t2.spec_deps().contains(d) implies alist_get(memo_top, d) == Some(
                            ChecksumCompareResult::Same,
                        ) by {
                            if d == jd.target {
                                assert(alist_get(memo_top, jd.target) is None);
                                assert(alist_get(self.checksum_memo@, jd.target) == Some(
                                    spec_fresh_verdict(self.checksum_memo@, cache0, jd.target),
                                ));
                            } else {
                                assert(alist_get(self.checksum_memo@, d) == alist_get(
                                    memo_top,
                                    d,
                                ));
                            }
                        }
                    }
                    assert(pre.spec_consults_before(t2, i as int) || (t2 == jd.target
                        && !consulted_now));
                }
            }
            let ghost ds_before = ds@;
            ds.push(Dispatch { job_index: i, job: jd, skip });
            let ghost phases_before = self.phases@;
            self.phases.set(i, JobPhase::Running);
            proof {
                lemma_count_done_update(phases_before, i as int, JobPhase::Running);
            }
            // Re-establish the per-job facts for the new state.
            assert forall|i2: int| 0 <= i2 < self.phases@.len() implies self.phases@[i2] == (
            if i2 < i + 1 && pre.spec_runnable(i2) {
                JobPhase::Running
            } else {
                pre.phases@[i2]
            }) by {
                if i2 == i {
                } else {
                    assert(self.phases@[i2] == phases_before[i2]);
                }
            }
            assert forall|i2: int|
                0 <= i2 < self.phases@.len() && !((#[trigger] self.phases@[i2]) is Awaiting) implies self.spec_deps_done(
                i2,
            ) by {
                assert forall|j2: int| 0 <= j2 < self.phases@.len() implies ((
                #[trigger] self.phases@[j2]) is Done <==> top.phases@[j2] is Done) by {
                    if j2 != i {
                        assert(self.phases@[j2] == phases_before[j2]);
                    }
                }
                if i2 == i {
                    assert(top.spec_deps_done(i2));
                } else {
                    assert(self.phases@[i2] == phases_before[i2]);
                    assert(!(top.phases@[i2] is Awaiting));
                    assert(top.spec_deps_done(i2));
                }
            }
            assert forall|k: int| 0 <= k < ds@.len() implies ((#[trigger] ds@[k]).skip <==> (
            ds@[k].job.job_type.spec_is_part_of_build() && !pre.failed_targets@.contains(
                ds@[k].job.target,
            ) && alist_get(self.checksum_memo@, ds@[k].job.target) == Some(
                ChecksumCompareResult::Same,
            ))) by {
                if k < ds_before.len() {
                    assert(ds@[k] == ds_before[k]);
                    let d = ds@[k];
                    if d.job.job_type.spec_is_part_of_build() && !pre.failed_targets@.contains(
                        d.job.target,
                    ) {
                        assert(alist_get(memo_top, d.job.target) is Some);
                        if consulted_now {
                            assert(d.job.target != jd.target);
                            assert(alist_get(self.checksum_memo@, d.job.target) == alist_get(
                                memo_top,
                                d.job.target,
                            ));
                        }
                    }
                } else {
                    assert(ds@[k] == (Dispatch { job_index: i, job: jd, skip }));
                }
            }
            assert forall|k: int|
                0 <= k < ds@.len() && (#[trigger] ds@[k]).job.job_type.spec_is_part_of_build()
                    && !pre.failed_targets@.contains(ds@[k].job.target) implies alist_get(
                self.checksum_memo@,
                ds@[k].job.target,
            ) is Some by {
                if k < ds_before.len() {
                    assert(ds@[k] == ds_before[k]);
                    assert(alist_get(memo_top, ds@[k].job.target) is Some);
                    if consulted_now {
                        assert(ds@[k].job.target != jd.target);
                        assert(alist_get(self.checksum_memo@, ds@[k].job.target) == alist_get(
                            memo_top,
                            ds@[k].job.target,
                        ));
                    }
                } else {
                    assert(ds@[k] == (Dispatch { job_index: i, job: jd, skip }));
                }
            }
            assert forall|i2: int|
                0 <= i2 < i + 1 && pre.spec_runnable(i2) implies exists|k: int|
                    0 <= k < ds@.len() && (#[trigger] ds@[k]).job_index == i2 by {
                if i2 == i {
                    assert(ds@[ds@.len() - 1].job_index == i);
                } else {
                    let k = choose|k: int|
                        0 <= k < ds_before.len() && (#[trigger] ds_before[k]).job_index == i2;
                    assert(ds@[k].job_index == i2);
                }
            }
            assert forall|k: int| 0 <= k < ds@.len() implies {
                let d = #[trigger] ds@[k];
                &&& d.job_index < i + 1
                &&& pre.spec_runnable(d.job_index as int)
                &&& d.job == pre.graph.jobs@[d.job_index as int]
            } by {
                if k < ds_before.len() {
                    assert(ds@[k] == ds_before[k]);
                } else {
                    assert(ds@[k] == (Dispatch { job_index: i, job: jd, skip }));
                }
            }
        }
        // The registration set at i + 1: unchanged, unless this job's
        // target was consulted for the first time and thereby
        // registered.
        assert forall|t2: Target| #[trigger]
            cache.involved@.contains(t2) <==> (cache0.involved@.contains(t2) || (
        pre.spec_consults_before(t2, i as int + 1) && alist_get(
            pre.checksum_memo@,
            t2,
        ) is None)) by {
            if consulted_now {
                if t2 == tc {
                    assert(alist_get(pre.checksum_memo@, tc) is None);
                    assert(pre.spec_consults_before(tc, i as int + 1));
                } else {
                    assert(pre.spec_consults_before(t2, i as int + 1)
                        == pre.spec_consults_before(t2, i as int));
                }
            } else {
                if t2 == tc {
                    if pre.spec_runnable(i as int) && pre.graph.jobs@[
                    i as int].job_type.spec_is_part_of_build() && !pre.failed_targets@.contains(
                        tc,
                    ) {
                        // Not consulted now, so the memo already held
                        // the target when the step began.
                        assert(alist_get(memo_top, tc) is Some);
                        if alist_get(pre.checksum_memo@, tc) is None {
                            assert(pre.spec_consults_before(tc, i as int));
                        }
                    } else {
                        assert(pre.spec_consults_before(tc, i as int + 1)
                            == pre.spec_consults_before(tc, i as int));
                    }
                } else {
                    assert(pre.spec_consults_before(t2, i as int + 1)
                        == pre.spec_consults_before(t2, i as int));
                }
            }
        }
        Ok(())
    }

    /// First consultation of a target in a spawn phase: registers the
    /// target with the cache and memoizes its fresh verdict — the
    /// fresh fingerprint compare, capped at changed unless every
    /// declared dependency of the target is already memoized as
    /// unchanged. Returns whether the target counts as unchanged, or
    /// the cache's error when it cannot answer a needed compare.
    fn consult_cache(&mut self, cache: &mut ChecksumRecords, target: Target) -> (r: Result<
        bool,
        ChecksumError,
    >)
        requires
            old(self).wf(),
            old(cache).wf(),
            alist_get(old(self).checksum_memo@, target) is None,
        ensures
            final(self).wf(),
            final(cache).wf(),
            final(cache).production == old(cache).production,
            final(cache).saved@ == old(cache).saved@,
            final(cache).current@ == old(cache).current@,
            final(self).graph == old(self).graph,
            final(self).phases == old(self).phases,
            final(self).fail_fast == old(self).fail_fast,
            final(self).interrupted == old(self).interrupted,
            final(self).finished_early == old(self).finished_early,
            final(self).results == old(self).results,
            final(self).failed_targets == old(self).failed_targets,
            // The target is registered with the cache, and nothing
            // else is: the registration set grows by exactly this
            // target.
            forall|t2: Target| #[trigger]
                final(cache).involved@.contains(t2) <==> (old(cache).involved@.contains(t2) || t2
                    == target),
            match r {
                Ok(skip) => {
                    &&& (forall|t2: Target| #[trigger]
                        alist_get(final(self).checksum_memo@, t2) == (if t2 == target {
                            Some(spec_fresh_verdict(final(self).checksum_memo@, *old(cache), target))
                        } else {
                            alist_get(old(self).checksum_memo@, t2)
                        }))
                    &&& (skip <==> alist_get(final(self).checksum_memo@, target) == Some(
                        ChecksumCompareResult::Same,
                    ))
                    &&& ((forall|d: Target| #[trigger]
                        target.spec_deps().contains(d) ==> alist_get(
                            final(self).checksum_memo@,
                            d,
                        ) == Some(ChecksumCompareResult::Same)) ==> old(cache).spec_compare(target)
                        is Ok)
                },
                Err(e) => {
                    &&& *final(self) == *old(self)
                    &&& (match e {
                        ChecksumError::MissingFingerprint(t2) => t2 == target && alist_get(
                            old(cache).current@,
                            t2,
                        ) is None,
                    })
                },
            },
    {
        cache.register_job(target);
        assert forall|t2: Target| #[trigger]
            cache.involved@.contains(t2) <==> (old(cache).involved@.contains(t2) || t2
                == target) by {
            let ghost old_inv = old(cache).involved@;
            if old_inv.contains(target) {
                if t2 == target {
                    assert(cache.involved@.contains(target));
                }
            } else {
                assert(cache.involved@ == old_inv.push(target));
                if cache.involved@.contains(t2) {
                    let n = choose|n: int| 0 <= n < cache.involved@.len() && cache.involved@[n]
                        == t2;
                    if n < old_inv.len() {
                        assert(old_inv[n] == t2);
                        assert(old_inv.contains(t2));
                    } else {
                        assert(t2 == target);
                    }
                }
                if old_inv.contains(t2) {
                    let n = choose|n: int| 0 <= n < old_inv.len() && old_inv[n] == t2;
                    assert(cache.involved@[n] == t2);
                }
                if t2 == target {
                    assert(cache.involved@[cache.involved@.len() - 1] == target);
                }
            }
        }
        // A target may count as unchanged only if everything it
        // depends on is unchanged too: regenerated outputs of a
        // dependency can invalidate it even when its own fingerprint
        // is equal.
        let tdeps = target.deps();
        let mut deps_same = true;
        let mut m: usize = 0;
        while m < tdeps.len()
            invariant
                m <= tdeps@.len(),
                tdeps@ == target.spec_deps(),
                *self == *old(self),
                deps_same == (forall|m2: int|
                    0 <= m2 < m ==> alist_get(self.checksum_memo@, #[trigger] tdeps@[m2]) == Some(
                        ChecksumCompareResult::Same,
                    )),
            decreases tdeps@.len() - m,
        {
            match alist_lookup(&self.checksum_memo, tdeps[m]) {
                Some(ChecksumCompareResult::Same) => {},
                _ => {
                    deps_same = false;
                },
            }
            m = m + 1;
        }
        let verdict = if deps_same {
            match cache.compare_checksum(target) {
                Ok(v) => v,
                Err(e) => {
                    return Err(e);
                },
            }
        } else {
            ChecksumCompareResult::Changed
        };
        proof {
            lemma_alist_get_none(self.checksum_memo@, target);
            lemma_alist_get_push(self.checksum_memo@, target, verdict);
        }
        let ghost old_memo = self.checksum_memo@;
        self.checksum_memo.push((target, verdict));
        // The memo keys stay distinct: the target had no entry yet.
        assert forall|a: int, b: int| 0 <= a < b < self.checksum_memo@.len() implies (
        #[trigger] self.checksum_memo@[a]).0 != (#[trigger] self.checksum_memo@[b]).0 by {
            if b == self.checksum_memo@.len() - 1 {
                assert(self.checksum_memo@[a] == old_memo[a]);
            }
        }
        // A target is memoized as unchanged only with all its
        // dependencies memoized as unchanged (and entries of other
        // targets are untouched).
        assert forall|t2: Target, d: Target|
            #![trigger alist_get(self.checksum_memo@, t2), t2.spec_deps().contains(d)]
            alist_get(self.checksum_memo@, t2) == Some(ChecksumCompareResult::Same)
                && t2.spec_deps().contains(d) implies alist_get(self.checksum_memo@, d) == Some(
            ChecksumCompareResult::Same,
        ) by {
            if t2 == target {
                assert(verdict == ChecksumCompareResult::Same);
                assert(deps_same);
                let m2 = choose|m2: int| 0 <= m2 < tdeps@.len() && tdeps@[m2] == d;
                assert(alist_get(old_memo, d) == Some(ChecksumCompareResult::Same));
                crate::target::lemma_deps_are_declared_earlier(t2, d);
                assert(d != target);
            } else {
                assert(alist_get(self.checksum_memo@, t2) == alist_get(old_memo, t2));
                assert(alist_get(old_memo, d) == Some(ChecksumCompareResult::Same));
                if d == target {
                    assert(alist_get(old_memo, target) is None);
                    assert(false);
                }
            }
        }
        // The memoized verdict is the fresh verdict over the memo as
        // it now stands: the new entry is no dependency of its own
        // target.
        assert forall|d: Target| #[trigger] target.spec_deps().contains(d) implies alist_get(
            self.checksum_memo@,
            d,
        ) == alist_get(old_memo, d) by {
            crate::target::lemma_deps_are_declared_earlier(target, d);
        }
        assert(verdict == spec_fresh_verdict(self.checksum_memo@, *old(cache), target)) by {
            reveal(spec_fresh_verdict);
            assert(cache.spec_compare(target) == old(cache).spec_compare(target));
            if deps_same {
                assert forall|d: Target| #[trigger] target.spec_deps().contains(d) implies alist_get(
                    self.checksum_memo@,
                    d,
                ) == Some(ChecksumCompareResult::Same) by {
                    let m2 = choose|m2: int| 0 <= m2 < tdeps@.len() && tdeps@[m2] == d;
                    assert(alist_get(old_memo, tdeps@[m2]) == Some(ChecksumCompareResult::Same));
                }
            } else {
                let m2 = choose|m2: int|
                    0 <= m2 < tdeps@.len() && alist_get(old_memo, #[trigger] tdeps@[m2]) != Some(
                        ChecksumCompareResult::Same,
                    );
                assert(target.spec_deps().contains(tdeps@[m2]));
                assert(alist_get(self.checksum_memo@, tdeps@[m2]) != Some(
                    ChecksumCompareResult::Same,
                ));
            }
        }
        // When every dependency is memoized as unchanged, the cache
        // had an answer for the fresh compare.
        assert((forall|d: Target| #[trigger]
            target.spec_deps().contains(d) ==> alist_get(self.checksum_memo@, d) == Some(
                ChecksumCompareResult::Same,
            )) ==> old(cache).spec_compare(target) is Ok) by {
            if !deps_same {
                let m2 = choose|m2: int|
                    0 <= m2 < tdeps@.len() && alist_get(old_memo, #[trigger] tdeps@[m2]) != Some(
                        ChecksumCompareResult::Same,
                    );
                assert(target.spec_deps().contains(tdeps@[m2]));
                assert(alist_get(self.checksum_memo@, tdeps@[m2]) != Some(
                    ChecksumCompareResult::Same,
                ));
            } else {
                assert(cache.spec_compare(target) == old(cache).spec_compare(target));
            }
        }
        Ok(verdict == ChecksumCompareResult::Same)
    }

    /// Folds one completion back in: the job is done, its result is
    /// recorded, a failure adds the job's target to the failed set,
    /// and under fail-fast a failure ends the run at once.
    pub fn on_job_done(&mut self, job_index: usize, outcome: Result<SpawnResult, String>)
        requires
            old(self).wf(),
            job_index < old(self).phases@.len(),
            old(self).phases@[job_index as int] is Running,
            !old(self).finished_early,
        ensures
            final(self).wf(),
            final(self).graph == old(self).graph,
            final(self).fail_fast == old(self).fail_fast,
            final(self).interrupted == old(self).interrupted,
            final(self).checksum_memo == old(self).checksum_memo,
            final(self).phases@ == old(self).phases@.update(job_index as int, JobPhase::Done),
            final(self).results@ == old(self).results@.push(
                JobResult { job: old(self).graph.jobs@[job_index as int], outcome },
            ),
            final(self).failed_targets@ == if spec_outcome_failed(outcome) {
                old(self).failed_targets@.push(old(self).graph.jobs@[job_index as int].target)
            } else {
                old(self).failed_targets@
            },
            final(self).finished_early == (old(self).fail_fast && spec_outcome_failed(outcome)),
    {
        let jd = self.graph.jobs[job_index];
        let failed = match &outcome {
            Ok(res) => !res.success,
            Err(_) => true,
        };
        proof {
            lemma_count_done_update(self.phases@, job_index as int, JobPhase::Done);
        }
        self.phases.set(job_index, JobPhase::Done);
        self.results.push(JobResult { job: jd, outcome });
        if failed {
            self.failed_targets.push(jd.target);
            if self.fail_fast {
                self.finished_early = true;
            }
        }
        assert forall|i: int|
            0 <= i < self.phases@.len() && !((#[trigger] self.phases@[i]) is Awaiting) implies self.spec_deps_done(
            i,
        ) by {
            assert(!(old(self).phases@[i] is Awaiting));
            assert(old(self).spec_deps_done(i));
            assert forall|k: int| 0 <= k < self.graph.deps@[i]@.len() implies self.phases@[(
            #[trigger] self.graph.deps@[i]@[k]) as int] is Done by {
                let j2 = self.graph.deps@[i]@[k] as int;
                assert(old(self).phases@[j2] is Done);
            }
        }
    }

    /// Whether the run earned a cache write: it ran to completion,
    /// uninterrupted, with every job successful. The persisted store
    /// is written once, after all scheduling work is over, and never
    /// after an interrupt or a failure.
    pub fn should_persist_cache(&self) -> (r: bool)
        ensures
            r == (!self.interrupted && !self.finished_early && self.spec_all_done()
                && self.failed_targets@.len() == 0),
    {
        !self.interrupted && !self.finished_early && self.all_done() && self.failed_targets.len()
            == 0
    }
}

/// With fail-fast disabled and no interrupt, a run that is not yet
/// complete can always make progress: whenever no job is running and
/// some job is not done, some job is runnable — the scheduler never
/// deadlocks, because prerequisites point strictly backwards in the
/// job order.
pub proof fn lemma_no_deadlock(s: Scheduler)
    requires
        s.wf(),
        exists|i: int| 0 <= i < s.phases@.len() && !((#[trigger] s.phases@[i]) is Done),
        forall|j: int| 0 <= j < s.phases@.len() ==> !((#[trigger] s.phases@[j]) is Running),
    ensures
        exists|i: int| 0 <= i < s.phases@.len() && s.spec_runnable(i),
{
    let i0 = choose|i: int| 0 <= i < s.phases@.len() && !((#[trigger] s.phases@[i]) is Done);
    lemma_runnable_below(s, i0);
}

/// Helper for [`lemma_no_deadlock`]: below any unfinished job there is
/// a runnable one, by descending through unfinished prerequisites.
proof fn lemma_runnable_below(s: Scheduler, i0: int)
    requires
        s.wf(),
        0 <= i0 < s.phases@.len(),
        !(s.phases@[i0] is Done),
        forall|j: int| 0 <= j < s.phases@.len() ==> !((#[trigger] s.phases@[j]) is Running),
    ensures
        exists|i: int| 0 <= i < s.phases@.len() && s.spec_runnable(i),
    decreases i0,
{
    assert(s.phases@[i0] is Awaiting);
    if s.spec_deps_done(i0) {
        assert(s.spec_runnable(i0));
    } else {
        let k = choose|k: int|
            0 <= k < s.graph.deps@[i0]@.len() && !(s.phases@[(#[trigger] s.graph.deps@[i0]@[k]) as int]
                is Done);
        let j = s.graph.deps@[i0]@[k] as int;
        assert(j < i0);
        lemma_runnable_below(s, j);
    }
}

/// Once every job is done, the run holds exactly one result per job of
/// the graph: with fail-fast disabled the run terminates exactly when
/// every job reaches done, and then the result count equals the size
/// of the job graph.
pub proof fn lemma_complete_run_has_all_results(s: Scheduler)
    requires
        s.wf(),
        s.spec_all_done(),
    ensures
        s.results@.len() == s.graph.jobs@.len(),
{
    lemma_count_done_all(s.phases@);
}

/// Skip propagation: a target is remembered as unchanged only
/// together with everything it depends on. In particular, when a
/// dependency of a target is remembered as changed, the target itself
/// is never remembered as unchanged in the same run — and so, by the
/// skip clause of [`Scheduler::spawn_jobs`], none of its jobs is ever
/// skipped.
pub proof fn lemma_skip_propagation(s: Scheduler, b: Target, a: Target)
    requires
        s.wf(),
        b.spec_deps().contains(a),
        alist_get(s.checksum_memo@, b) == Some(ChecksumCompareResult::Same),
    ensures
        alist_get(s.checksum_memo@, a) == Some(ChecksumCompareResult::Same),
{
}

/// Whether every recorded completion succeeded. The run as a whole
/// counts as successful exactly when this holds of its results.
pub fn all_tasks_succeeded(results: &Vec<JobResult>) -> (r: bool)
    ensures
        r == (forall|k: int|
            0 <= k < results@.len() ==> !spec_outcome_failed((#[trigger] results@[k]).outcome)),
{
    let mut i: usize = 0;
    while i < results.len()
        invariant
            i <= results@.len(),
            forall|k: int| 0 <= k < i ==> !spec_outcome_failed((#[trigger] results@[k]).outcome),
        decreases results@.len() - i,
    {
        let failed = match &results[i].outcome {
            Ok(res) => !res.success,
            Err(_) => true,
        };
        if failed {
            return false;
        }
        i = i + 1;
    }
    true
}

} // verus!
