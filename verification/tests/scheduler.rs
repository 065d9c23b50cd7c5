//! Scenario tests driving the scheduler state machine the way the
//! control loop of the tool does: alternating spawn phases with
//! completions.

use chipmunk_cli::checksum_records::{ChecksumError, ChecksumRecords};
use chipmunk_cli::job_type::JobType;
use chipmunk_cli::jobs_resolver;
use chipmunk_cli::jobs_runner::{JobPhase, Scheduler};
use chipmunk_cli::spawner::SpawnResult;
use chipmunk_cli::target::Target;

fn empty_cache() -> ChecksumRecords {
    ChecksumRecords::new(false, Vec::new(), Vec::new())
}

fn ok_result(job: &str) -> Result<SpawnResult, String> {
    Ok(SpawnResult::create_for_command(job.to_string(), Vec::new(), true))
}

fn failed_result(job: &str) -> Result<SpawnResult, String> {
    Ok(SpawnResult::create_for_command(job.to_string(), Vec::new(), false))
}

/// Two lint jobs, B depending on A: both succeed, two results, and
/// A's completion strictly precedes B's dispatch.
#[test]
fn two_targets_both_succeed() {
    let graph = jobs_resolver::resolve(&vec![Target::Shared, Target::Binding], JobType::Lint);
    assert_eq!(graph.len(), 2);
    assert_eq!(graph.jobs[0].target, Target::Shared);
    assert_eq!(graph.jobs[1].target, Target::Binding);

    let mut cache = empty_cache();
    let mut sched = Scheduler::new(graph, false);

    // First wavefront: only A is runnable; B still awaits A.
    let wave1 = sched.spawn_jobs(&mut cache).unwrap();
    assert_eq!(wave1.len(), 1);
    assert_eq!(wave1[0].job_index, 0);
    assert_eq!(wave1[0].job.target, Target::Shared);
    assert!(!wave1[0].skip);
    assert!(matches!(sched.phase(0), JobPhase::Running));
    assert!(matches!(sched.phase(1), JobPhase::Awaiting));

    // Nothing else becomes runnable before A's completion arrives.
    let wave_empty = sched.spawn_jobs(&mut cache).unwrap();
    assert_eq!(wave_empty.len(), 0);

    sched.on_job_done(0, ok_result("Lint Shared"));
    assert!(matches!(sched.phase(0), JobPhase::Done));

    // A is done: now, and only now, B is dispatched.
    let wave2 = sched.spawn_jobs(&mut cache).unwrap();
    assert_eq!(wave2.len(), 1);
    assert_eq!(wave2[0].job_index, 1);
    assert_eq!(wave2[0].job.target, Target::Binding);
    sched.on_job_done(1, ok_result("Lint Binding"));

    assert!(sched.all_done());
    assert_eq!(sched.results.len(), 2);
    for r in &sched.results {
        assert!(r.outcome.as_ref().unwrap().success);
    }
    assert!(sched.should_persist_cache());
}

/// Fail-fast: A fails, the run returns exactly one result and B is
/// never dispatched.
#[test]
fn fail_fast_returns_after_first_failure() {
    let graph = jobs_resolver::resolve(&vec![Target::Shared, Target::Binding], JobType::Lint);
    let mut cache = empty_cache();
    let mut sched = Scheduler::new(graph, true);

    let wave1 = sched.spawn_jobs(&mut cache).unwrap();
    assert_eq!(wave1.len(), 1);
    sched.on_job_done(0, failed_result("Lint Shared"));

    assert_eq!(sched.results.len(), 1);
    assert!(!sched.results[0].outcome.as_ref().unwrap().success);
    assert!(sched.finished_early);

    // No further dispatches: B stays awaiting.
    let wave2 = sched.spawn_jobs(&mut cache).unwrap();
    assert_eq!(wave2.len(), 0);
    assert!(matches!(sched.phase(1), JobPhase::Awaiting));
    assert!(!sched.should_persist_cache());
}

/// Without fail-fast a failure does not stop the run: B's dependency
/// count reaches zero once A finishes regardless of the outcome, so
/// both jobs execute and both results are collected.
#[test]
fn failure_without_fail_fast_continues() {
    let graph = jobs_resolver::resolve(&vec![Target::Shared, Target::Binding], JobType::Lint);
    let mut cache = empty_cache();
    let mut sched = Scheduler::new(graph, false);

    let wave1 = sched.spawn_jobs(&mut cache).unwrap();
    assert_eq!(wave1.len(), 1);
    sched.on_job_done(0, failed_result("Lint Shared"));
    assert!(!sched.finished_early);
    assert_eq!(sched.failed_targets, vec![Target::Shared]);

    let wave2 = sched.spawn_jobs(&mut cache).unwrap();
    assert_eq!(wave2.len(), 1);
    assert_eq!(wave2[0].job.target, Target::Binding);
    sched.on_job_done(1, ok_result("Lint Binding"));

    assert!(sched.all_done());
    assert_eq!(sched.results.len(), 2);
    assert!(!sched.should_persist_cache());
}

/// A failed target is never skipped afterwards, so the failure stays
/// visible: the second build job of the failed target runs even though
/// its fingerprint is unchanged.
#[test]
fn failed_target_is_not_skipped() {
    // Shared's fingerprint is unchanged, so without the failure its
    // build would be skipped.
    let tables = vec![(Target::Shared, 7)];
    let graph = jobs_resolver::resolve(&vec![Target::Shared], JobType::Build { production: false });
    // Shared has an install job and a build job.
    assert_eq!(graph.len(), 2);
    let mut cache = ChecksumRecords::new(false, tables.clone(), tables);
    let mut sched = Scheduler::new(graph, false);

    let wave1 = sched.spawn_jobs(&mut cache).unwrap();
    assert_eq!(wave1.len(), 1);
    assert_eq!(wave1[0].job.job_type, JobType::Install { production: false });
    // The install would be skipped: the target is unchanged.
    assert!(wave1[0].skip);
    // It fails anyway (say, its bookkeeping path broke).
    sched.on_job_done(0, failed_result("Install Shared"));

    let wave2 = sched.spawn_jobs(&mut cache).unwrap();
    assert_eq!(wave2.len(), 1);
    assert_eq!(wave2[0].job.job_type, JobType::Build { production: false });
    // Unchanged or not, a failed target is forced to run.
    assert!(!wave2[0].skip);
}

/// Skip propagation: the dependency's fingerprint changed, so the
/// dependent target is never counted as unchanged, even though its own
/// fingerprint is identical.
#[test]
fn changed_dependency_forces_run() {
    let saved = vec![(Target::Shared, 1), (Target::Binding, 2)];
    let current = vec![(Target::Shared, 9), (Target::Binding, 2)];
    let graph = jobs_resolver::resolve(&vec![Target::Binding], JobType::Build {
        production: false,
    });
    // Build on Binding pulls in Shared: Shared has install + build,
    // Binding has install + build + after-build.
    assert_eq!(graph.len(), 5);
    let mut cache = ChecksumRecords::new(false, saved, current);
    let mut sched = Scheduler::new(graph, false);

    let mut dispatched = Vec::new();
    loop {
        let wave = sched.spawn_jobs(&mut cache).unwrap();
        if wave.is_empty() {
            break;
        }
        for d in wave {
            sched.on_job_done(d.job_index, ok_result("job"));
            dispatched.push(d);
        }
    }
    assert!(sched.all_done());
    assert_eq!(dispatched.len(), 5);
    // Not a single job was skipped: Shared changed, and Binding is
    // invalidated by its changed dependency despite its own unchanged
    // fingerprint.
    for d in &dispatched {
        assert!(!d.skip);
    }

    // After the successful run the fresh fingerprints are persisted.
    assert!(sched.should_persist_cache());
    let table = cache.update_and_save(JobType::Build { production: false });
    let mut shared = None;
    let mut binding = None;
    for (t, f) in table {
        match t {
            Target::Shared => shared = Some(f),
            Target::Binding => binding = Some(f),
            _ => panic!("unexpected target in the persisted table"),
        }
    }
    assert_eq!(shared, Some(9));
    assert_eq!(binding, Some(2));
}

/// A target with an unchanged fingerprint and an unchanged dependency
/// is skipped: its jobs are dispatched with `skip` set and produce a
/// result flagged as skipped, with no external process executed.
#[test]
fn unchanged_target_is_skipped() {
    let tables = vec![(Target::Shared, 1), (Target::Binding, 2)];
    let graph = jobs_resolver::resolve(&vec![Target::Binding], JobType::Build {
        production: false,
    });
    let mut cache = ChecksumRecords::new(false, tables.clone(), tables);
    let mut sched = Scheduler::new(graph, false);

    let mut skipped = 0;
    loop {
        let wave = sched.spawn_jobs(&mut cache).unwrap();
        if wave.is_empty() {
            break;
        }
        for d in wave {
            assert!(d.skip);
            skipped += 1;
            // The job runs its lightweight bookkeeping path only.
            let res = SpawnResult::create_for_skipped(format!("job {}", d.job_index));
            assert!(res.skipped);
            assert!(res.success);
            sched.on_job_done(d.job_index, Ok(res));
        }
    }
    assert!(sched.all_done());
    assert_eq!(skipped, 5);
    for r in &sched.results {
        assert!(r.outcome.as_ref().unwrap().skipped);
    }
}

/// An interrupt stops new dispatches; jobs already running still
/// complete, and the cache is not written.
#[test]
fn interrupt_stops_new_dispatches() {
    let graph = jobs_resolver::resolve(&vec![Target::Shared, Target::Binding], JobType::Lint);
    let mut cache = empty_cache();
    let mut sched = Scheduler::new(graph, false);

    let wave1 = sched.spawn_jobs(&mut cache).unwrap();
    assert_eq!(wave1.len(), 1);

    sched.interrupt();

    // The signal arrived mid-run: nothing new is dispatched ...
    let wave2 = sched.spawn_jobs(&mut cache).unwrap();
    assert_eq!(wave2.len(), 0);

    // ... but the job already running completes in an orderly way.
    sched.on_job_done(0, ok_result("Lint Shared"));
    assert!(matches!(sched.phase(0), JobPhase::Done));
    assert!(matches!(sched.phase(1), JobPhase::Awaiting));

    let wave3 = sched.spawn_jobs(&mut cache).unwrap();
    assert_eq!(wave3.len(), 0);

    // The run did not complete: the checksum store must not be
    // rewritten.
    assert!(!sched.should_persist_cache());
}

/// Every job passes through awaiting, running and done exactly once
/// and never re-enters an earlier phase.
#[test]
fn phases_never_go_backwards() {
    let graph = jobs_resolver::resolve(&vec![Target::Shared, Target::Binding], JobType::Lint);
    let n = graph.len();
    let mut cache = empty_cache();
    let mut sched = Scheduler::new(graph, false);

    let rank = |p: JobPhase| match p {
        JobPhase::Awaiting => 0,
        JobPhase::Running => 1,
        JobPhase::Done => 2,
    };
    let mut last: Vec<i32> = (0..n).map(|i| rank(sched.phase(i))).collect();
    assert!(last.iter().all(|&r| r == 0));

    loop {
        let wave = sched.spawn_jobs(&mut cache).unwrap();
        for i in 0..n {
            let now = rank(sched.phase(i));
            assert!(now >= last[i]);
            last[i] = now;
        }
        if sched.all_done() {
            break;
        }
        let first = match wave.into_iter().next() {
            Some(d) => d,
            None => break,
        };
        sched.on_job_done(first.job_index, ok_result("job"));
        for i in 0..n {
            let now = rank(sched.phase(i));
            assert!(now >= last[i]);
            last[i] = now;
        }
    }
    assert!(sched.all_done());
    assert_eq!(sched.results.len(), n);
}

/// The aggregate verdict of a run: success exactly when every result
/// succeeded.
#[test]
fn aggregate_success_verdict() {
    let graph = jobs_resolver::resolve(&vec![Target::Shared, Target::Binding], JobType::Lint);
    let mut cache = empty_cache();
    let mut sched = Scheduler::new(graph, false);

    let w1 = sched.spawn_jobs(&mut cache).unwrap();
    sched.on_job_done(w1[0].job_index, ok_result("Lint Shared"));
    let w2 = sched.spawn_jobs(&mut cache).unwrap();
    sched.on_job_done(w2[0].job_index, failed_result("Lint Binding"));

    assert!(!chipmunk_cli::jobs_runner::all_tasks_succeeded(&sched.results));

    let all_ok = vec![];
    assert!(chipmunk_cli::jobs_runner::all_tasks_succeeded(&all_ok));
}

/// When the cache has no current fingerprint for a consulted target,
/// the spawn phase surfaces the error and the run aborts: no skip
/// verdict is ever guessed.
#[test]
fn missing_fingerprint_aborts_the_run() {
    let graph = jobs_resolver::resolve(&vec![Target::Shared], JobType::Build {
        production: false,
    });
    // The cache knows nothing about the current working tree.
    let mut cache = ChecksumRecords::new(false, vec![(Target::Shared, 1)], Vec::new());
    let mut sched = Scheduler::new(graph, false);

    let r = sched.spawn_jobs(&mut cache);
    assert!(matches!(r, Err(ChecksumError::MissingFingerprint(Target::Shared))));
}

/// A repeated target in the request does not schedule its jobs twice.
#[test]
fn duplicate_requests_schedule_once() {
    let graph = jobs_resolver::resolve(&vec![Target::Shared, Target::Shared], JobType::Lint);
    assert_eq!(graph.len(), 1);
}

/// Only targets the skip decision actually consulted are registered
/// with the cache: a lint run registers nothing, and a build run
/// registers exactly the involved targets, which is what a later save
/// refreshes.
#[test]
fn only_consulted_targets_are_registered() {
    // Lint jobs never consult the cache.
    let graph = jobs_resolver::resolve(&vec![Target::Shared, Target::Binding], JobType::Lint);
    let mut cache = ChecksumRecords::new(
        false,
        vec![(Target::Shared, 1)],
        vec![(Target::Shared, 1), (Target::Binding, 2)],
    );
    let mut sched = Scheduler::new(graph, false);
    loop {
        let wave = sched.spawn_jobs(&mut cache).unwrap();
        if wave.is_empty() {
            break;
        }
        for d in wave {
            sched.on_job_done(d.job_index, ok_result("job"));
        }
    }
    assert!(sched.all_done());
    assert!(cache.involved.is_empty());
    // Nothing registered: the table to persist is the loaded one.
    let table = cache.update_and_save(JobType::Lint);
    assert_eq!(table, vec![(Target::Shared, 1)]);

    // A build run registers exactly the involved targets.
    let graph = jobs_resolver::resolve(&vec![Target::Binding], JobType::Build {
        production: false,
    });
    let mut cache = ChecksumRecords::new(
        false,
        Vec::new(),
        vec![(Target::Shared, 1), (Target::Binding, 2)],
    );
    let mut sched = Scheduler::new(graph, false);
    loop {
        let wave = sched.spawn_jobs(&mut cache).unwrap();
        if wave.is_empty() {
            break;
        }
        for d in wave {
            sched.on_job_done(d.job_index, ok_result("job"));
        }
    }
    assert!(sched.all_done());
    assert!(cache.involved.contains(&Target::Shared));
    assert!(cache.involved.contains(&Target::Binding));
    assert_eq!(cache.involved.len(), 2);
}
