//! Tests of the job graph resolver: which jobs are scheduled, and
//! which prerequisite edges they get.

use chipmunk_cli::job_definition::JobDefinition;
use chipmunk_cli::job_type::JobType;
use chipmunk_cli::jobs_resolver::{self, JobGraph};
use chipmunk_cli::target::Target;

fn has_job(graph: &JobGraph, target: Target, job_type: JobType) -> bool {
    graph.jobs.iter().any(|j| j.target == target && j.job_type == job_type)
}

fn index_of(graph: &JobGraph, target: Target, job_type: JobType) -> usize {
    graph
        .jobs
        .iter()
        .position(|j| j.target == target && j.job_type == job_type)
        .expect("job not in graph")
}

#[test]
fn lint_schedules_one_job_per_requested_target() {
    let graph = jobs_resolver::resolve(&vec![Target::Shared, Target::Binding], JobType::Lint);
    assert_eq!(graph.len(), 2);
    assert!(has_job(&graph, Target::Shared, JobType::Lint));
    assert!(has_job(&graph, Target::Binding, JobType::Lint));
    // A lint run does not pull dependencies in: linting the
    // application holder alone schedules one job.
    let alone = jobs_resolver::resolve(&vec![Target::App], JobType::Lint);
    assert_eq!(alone.len(), 1);
}

#[test]
fn build_pulls_in_dependencies_and_pipeline_steps() {
    let graph = jobs_resolver::resolve(&vec![Target::Binding], JobType::Build {
        production: false,
    });
    // Binding depends on Shared. Shared: install + build; Binding:
    // install + build + after-build.
    assert_eq!(graph.len(), 5);
    let p = false;
    assert!(has_job(&graph, Target::Shared, JobType::Install { production: p }));
    assert!(has_job(&graph, Target::Shared, JobType::Build { production: p }));
    assert!(has_job(&graph, Target::Binding, JobType::Install { production: p }));
    assert!(has_job(&graph, Target::Binding, JobType::Build { production: p }));
    assert!(has_job(&graph, Target::Binding, JobType::AfterBuild { production: p }));
}

#[test]
fn build_closure_of_the_whole_application() {
    // Building the application holder pulls in everything but Cli.
    let graph = jobs_resolver::resolve(&vec![Target::App], JobType::Build { production: true });
    assert_eq!(graph.len(), 15);
    assert!(!graph.jobs.iter().any(|j| j.target == Target::Cli));
    // The production flag runs through every scheduled job.
    for j in &graph.jobs {
        assert_eq!(j.job_type.is_production(), Some(true));
    }
}

#[test]
fn edges_follow_pipeline_and_target_dependencies() {
    let p = false;
    let graph = jobs_resolver::resolve(&vec![Target::Binding], JobType::Build { production: p });
    let shared_install = index_of(&graph, Target::Shared, JobType::Install { production: p });
    let shared_build = index_of(&graph, Target::Shared, JobType::Build { production: p });
    let binding_install = index_of(&graph, Target::Binding, JobType::Install { production: p });
    let binding_build = index_of(&graph, Target::Binding, JobType::Build { production: p });

    // Within a target the pipeline orders the jobs.
    assert!(graph.deps[shared_build].contains(&shared_install));
    assert!(graph.deps[binding_build].contains(&binding_install));
    // A job waits for every job of each target its target depends on.
    assert!(graph.deps[binding_install].contains(&shared_install));
    assert!(graph.deps[binding_install].contains(&shared_build));
    // The first job of the run has no prerequisites.
    assert!(graph.deps[shared_install].is_empty());
    // Prerequisite edges point strictly backwards: the graph is
    // acyclic.
    for (i, di) in graph.deps.iter().enumerate() {
        for &j in di {
            assert!(j < i);
        }
    }
}

#[test]
fn jobs_are_in_the_total_order() {
    let graph = jobs_resolver::resolve(&vec![Target::App], JobType::Build { production: false });
    for w in graph.jobs.windows(2) {
        assert!(w[0].order() < w[1].order());
    }
}

#[test]
fn job_definition_dependency_relation() {
    let p = false;
    let a = JobDefinition::new(Target::Binding, JobType::Build { production: p });
    let b = JobDefinition::new(Target::Binding, JobType::Install { production: p });
    let c = JobDefinition::new(Target::Shared, JobType::Build { production: p });
    let d = JobDefinition::new(Target::Wasm, JobType::Build { production: p });
    // Pipeline order within one target.
    assert!(a.depends_on(&b));
    assert!(!b.depends_on(&a));
    // Dependency targets.
    assert!(a.depends_on(&c));
    assert!(!c.depends_on(&a));
    // Unrelated targets.
    assert!(!a.depends_on(&d));
    assert!(!a.depends_on(&a));
}
