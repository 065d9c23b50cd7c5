//! Tests of the build cache: register, compare, eviction, and the
//! table handed back for persisting.

use chipmunk_cli::checksum_records::{ChecksumCompareResult, ChecksumError, ChecksumRecords};
use chipmunk_cli::job_type::JobType;
use chipmunk_cli::target::Target;

#[test]
fn compare_same_and_changed() {
    let saved = vec![(Target::Core, 11), (Target::Cli, 22)];
    let current = vec![(Target::Core, 11), (Target::Cli, 33), (Target::Wasm, 44)];
    let cache = ChecksumRecords::new(false, saved, current);

    assert_eq!(cache.compare_checksum(Target::Core), Ok(ChecksumCompareResult::Same));
    assert_eq!(cache.compare_checksum(Target::Cli), Ok(ChecksumCompareResult::Changed));
    // Nothing persisted for the target: fall back to changed rather
    // than guessing or crashing (a deleted store is tolerated).
    assert_eq!(cache.compare_checksum(Target::Wasm), Ok(ChecksumCompareResult::Changed));
}

#[test]
fn compare_without_fingerprint_is_an_error() {
    let cache = ChecksumRecords::new(false, vec![(Target::Core, 11)], vec![]);
    // No current fingerprint: the cache never guesses a verdict.
    assert_eq!(
        cache.compare_checksum(Target::Core),
        Err(ChecksumError::MissingFingerprint(Target::Core))
    );
}

/// Repeated compares return the same verdict; registering targets in
/// between changes nothing.
#[test]
fn compare_is_idempotent() {
    let saved = vec![(Target::Core, 5)];
    let current = vec![(Target::Core, 5), (Target::Cli, 6)];
    let mut cache = ChecksumRecords::new(false, saved, current);

    let first = cache.compare_checksum(Target::Core);
    cache.register_job(Target::Core);
    cache.register_job(Target::Cli);
    cache.register_job(Target::Core);
    let second = cache.compare_checksum(Target::Core);
    let third = cache.compare_checksum(Target::Core);
    assert_eq!(first, second);
    assert_eq!(second, third);
    assert_eq!(first, Ok(ChecksumCompareResult::Same));

    // Computing the table to persist is read-only too.
    let _ = cache.update_and_save(JobType::Build { production: false });
    assert_eq!(cache.compare_checksum(Target::Core), first);
}

#[test]
fn eviction_forgets_the_target() {
    let tables = vec![(Target::Core, 5), (Target::Cli, 6)];
    let mut cache = ChecksumRecords::new(false, tables.clone(), tables);
    assert_eq!(cache.compare_checksum(Target::Core), Ok(ChecksumCompareResult::Same));

    cache.remove_hash_if_exist(Target::Core);
    // Both fingerprints of the evicted target are gone ...
    assert_eq!(
        cache.compare_checksum(Target::Core),
        Err(ChecksumError::MissingFingerprint(Target::Core))
    );
    // ... and other targets are untouched.
    assert_eq!(cache.compare_checksum(Target::Cli), Ok(ChecksumCompareResult::Same));

    // The eviction survives into the persisted table.
    let table = cache.update_and_save(JobType::Clean);
    assert_eq!(table.len(), 1);
    assert_eq!(table[0].0, Target::Cli);
}

/// Only registered ("touched") targets get fresh fingerprints in the
/// persisted table, and only for build-pipeline runs.
#[test]
fn update_and_save_refreshes_registered_targets() {
    let saved = vec![(Target::Core, 1), (Target::Cli, 2)];
    let current = vec![(Target::Core, 10), (Target::Cli, 20)];
    let mut cache = ChecksumRecords::new(false, saved, current);
    cache.register_job(Target::Core);

    // A lint run persists nothing fresh.
    let lint_table = cache.update_and_save(JobType::Lint);
    let lookup = |table: &Vec<(Target, u64)>, t: Target| {
        table.iter().find(|e| e.0 == t).map(|e| e.1)
    };
    assert_eq!(lookup(&lint_table, Target::Core), Some(1));
    assert_eq!(lookup(&lint_table, Target::Cli), Some(2));

    // A build run refreshes the registered target only.
    let build_table = cache.update_and_save(JobType::Build { production: false });
    assert_eq!(lookup(&build_table, Target::Core), Some(10));
    assert_eq!(lookup(&build_table, Target::Cli), Some(2));
}

#[test]
fn generations_are_separate() {
    let dev = ChecksumRecords::new(false, vec![(Target::Core, 1)], vec![(Target::Core, 1)]);
    let prod = ChecksumRecords::new(true, vec![(Target::Core, 2)], vec![(Target::Core, 1)]);
    assert!(!dev.production);
    assert!(prod.production);
    // The same working tree compares differently against the two
    // generations' stores.
    assert_eq!(dev.compare_checksum(Target::Core), Ok(ChecksumCompareResult::Same));
    assert_eq!(prod.compare_checksum(Target::Core), Ok(ChecksumCompareResult::Changed));
}
