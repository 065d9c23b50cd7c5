//! Tests of the static target catalog, the job types, the repository
//! location helpers and the per-target modules.

use chipmunk_cli::job_type::JobType;
use chipmunk_cli::location::{self, Location, LocationError};
use chipmunk_cli::modules;
use chipmunk_cli::spawner::SpawnResult;
use chipmunk_cli::target::{get_targets_or_default, Target, TargetKind};

#[test]
fn catalog_dependencies() {
    assert!(Target::Shared.deps().is_empty());
    assert_eq!(Target::Binding.deps(), vec![Target::Shared]);
    assert_eq!(Target::Wrapper.deps(), vec![Target::Binding, Target::Shared]);
    assert_eq!(Target::Client.deps(), vec![Target::Shared, Target::Wasm]);
    assert_eq!(
        Target::App.deps(),
        vec![Target::Wrapper, Target::Client, Target::Core, Target::Updater]
    );
    // Every dependency is declared before its dependent.
    for t in Target::all() {
        for d in t.deps() {
            assert!(d.ordinal() < t.ordinal());
        }
    }
}

#[test]
fn catalog_kinds_and_jobs() {
    assert_eq!(Target::Core.kind(), TargetKind::Rs);
    assert_eq!(Target::Shared.kind(), TargetKind::Ts);
    assert!(Target::Core.has_job(JobType::Lint));
    assert!(Target::Core.has_job(JobType::Build { production: false }));
    assert!(!Target::Core.has_job(JobType::Install { production: false }));
    assert!(!Target::Core.has_job(JobType::AfterBuild { production: false }));
    assert!(Target::Core.has_job(JobType::Test { production: false }));
    assert!(!Target::Shared.has_job(JobType::Test { production: false }));
    assert!(!Target::App.has_job(JobType::Run { production: false }));
}

#[test]
fn job_type_pipeline() {
    let p = true;
    assert_eq!(
        JobType::Build { production: p }.involved_job_types(),
        vec![
            JobType::Install { production: p },
            JobType::Build { production: p },
            JobType::AfterBuild { production: p },
        ]
    );
    assert_eq!(JobType::Lint.involved_job_types(), vec![JobType::Lint]);
    assert!(JobType::Build { production: false }.is_part_of_build());
    assert!(JobType::Install { production: false }.is_part_of_build());
    assert!(JobType::AfterBuild { production: false }.is_part_of_build());
    assert!(!JobType::Lint.is_part_of_build());
    assert!(!JobType::Clean.is_part_of_build());
    assert!(!JobType::Test { production: false }.is_part_of_build());
    assert_eq!(JobType::Lint.is_production(), None);
    assert_eq!(JobType::Build { production: true }.is_production(), Some(true));
}

#[test]
fn default_targets_and_dedup() {
    // No explicit targets: every target, in declaration order.
    let all = get_targets_or_default(None);
    assert_eq!(all.len(), 9);
    assert_eq!(all[0], Target::Core);
    assert_eq!(all[8], Target::Cli);
    // An explicit list keeps its order; only consecutive repetitions
    // collapse.
    let list = vec![Target::Shared, Target::Shared, Target::Binding, Target::Shared];
    assert_eq!(
        get_targets_or_default(Some(list)),
        vec![Target::Shared, Target::Binding, Target::Shared]
    );
}

#[test]
fn location_validation() {
    let ok = location::init_location(Some("/repo".to_string()), true, true).unwrap();
    assert_eq!(ok.root, "/repo");
    assert_eq!(location::get_root(&ok).as_str(), "/repo");

    assert!(matches!(
        location::init_location(None, true, true),
        Err(LocationError::RootNotFound)
    ));
    assert!(matches!(
        location::init_location(Some("/repo".to_string()), false, true),
        Err(LocationError::NotProjectRoot)
    ));
    assert!(matches!(
        location::init_location(Some("/repo".to_string()), true, false),
        Err(LocationError::NotProjectRoot)
    ));
}

#[test]
fn fixed_paths() {
    let loc = Location { root: "/repo".to_string() };
    assert_eq!(location::config_path(&loc), vec!["/repo", "cli", "config"]);
    let home = "/home/user".to_string();
    assert_eq!(
        location::chipmunk_log_config(&home),
        vec!["/home/user", ".chipmunk", "log4rs.yaml"]
    );
    assert_eq!(
        location::build_cli_home_dir(&home),
        vec!["/home/user", ".chipmunk", "build_cli"]
    );
    assert_eq!(Target::Cli.relative_cwd(), vec!["cli"]);
    assert_eq!(
        Target::Core.cwd(&loc),
        vec!["/repo", "application", "apps", "indexer"]
    );
}

#[test]
fn per_target_modules() {
    let loc = Location { root: "/repo".to_string() };

    let cli = modules::cli::Module::new();
    assert_eq!(cli.owner(), Target::Cli);
    assert_eq!(cli.kind(), TargetKind::Rs);
    assert_eq!(cli.deps(), Target::Cli.deps());
    assert_eq!(cli.cwd(&loc), vec!["/repo", "cli"]);

    let wrapper = modules::wrapper::Module::new();
    assert_eq!(wrapper.owner(), Target::Wrapper);
    assert_eq!(wrapper.kind(), TargetKind::Ts);
    assert_eq!(wrapper.deps(), Target::Wrapper.deps());
    assert_eq!(
        wrapper.cwd(&loc),
        vec!["/repo", "application", "apps", "rustcore", "ts-bindings"]
    );
}

#[test]
fn spawn_result_append_concatenates_reports() {
    let mut first = SpawnResult::create_for_command(
        "Test Core".to_string(),
        vec!["line one".to_string()],
        true,
    );
    let second = SpawnResult::create_for_command(
        "Test Core".to_string(),
        vec!["line two".to_string(), "line three".to_string()],
        false,
    );
    first.append(second);
    assert_eq!(first.report, vec!["line one", "line two", "line three"]);
    // A multi-command job succeeds only if every command did.
    assert!(!first.success);

    let fs = SpawnResult::create_for_fs("Clean Cli".to_string(), vec![]);
    assert!(fs.success);
    assert!(!fs.skipped);
}
