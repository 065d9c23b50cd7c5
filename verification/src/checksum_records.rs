//! The build cache: per-target content fingerprints, persisted across
//! runs and partitioned by cache generation (development/production).
//! The cache decides skip versus execute; it never stores artifacts.
//! Loading and saving the fingerprint tables is the caller's business;
//! this module owns the compare and update rules.

use vstd::prelude::*;

use crate::alist::{alist_distinct, alist_get, alist_lookup, alist_remove, lemma_alist_get_none, lemma_alist_get_present, lemma_alist_get_push};
use crate::job_type::JobType;
use crate::target::Target;

verus! {

/// The verdict of comparing a target's current fingerprint with its
/// last persisted one.
#[derive(Debug, Clone, Copy, PartialEq, Eq, Structural)]
pub enum ChecksumCompareResult {
    /// The fingerprints are equal.
    Same,
    /// The fingerprints differ, or no fingerprint was persisted.
    Changed,
}

/// Why the cache could not answer a compare. The cache never guesses:
/// without a current fingerprint for the target there is no verdict.
#[derive(Debug, Clone, Copy, PartialEq, Eq, Structural)]
pub enum ChecksumError {
    /// No current fingerprint is known for the target.
    MissingFingerprint(Target),
}

/// The persisted and the freshly computed fingerprints of one cache
/// generation, together with the targets registered ("touched") in the
/// current run.
#[derive(Debug, Clone)]
pub struct ChecksumRecords {
    /// Which cache generation this is: production or development.
    pub production: bool,
    /// The fingerprint table persisted by the last equivalent run.
    pub saved: Vec<(Target, u64)>,
    /// The fingerprints of the targets as they are on disk now,
    /// computed by the caller once per run.
    pub current: Vec<(Target, u64)>,
    /// The targets registered with the cache during this run.
    pub involved: Vec<Target>,
}

impl ChecksumRecords {
    /// The tables are keyed by target: each key occurs at most once.
    pub open spec fn wf(self) -> bool {
        &&& alist_distinct(self.saved@)
        &&& alist_distinct(self.current@)
        &&& (forall|i: int, j: int|
            0 <= i < j < self.involved@.len() ==> self.involved@[i] != self.involved@[j])
    }

    /// Creates the cache for one generation from the persisted table
    /// and the fingerprints computed for this run.
    pub fn new(production: bool, saved: Vec<(Target, u64)>, current: Vec<(Target, u64)>) -> (r:
        ChecksumRecords)
        requires
            alist_distinct(saved@),
            alist_distinct(current@),
        ensures
            r.wf(),
            r.production == production,
            r.saved@ == saved@,
            r.current@ == current@,
            r.involved@.len() == 0,
    {
        ChecksumRecords { production, saved, current, involved: Vec::new() }
    }

    /// Registers a target as touched by the current run. Registering is
    /// idempotent and changes neither fingerprint table, so it never
    /// changes a compare verdict.
    pub fn register_job(&mut self, target: Target)
        requires
            old(self).wf(),
        ensures
            final(self).wf(),
            final(self).production == old(self).production,
            final(self).saved@ == old(self).saved@,
            final(self).current@ == old(self).current@,
            final(self).involved@ == if old(self).involved@.contains(target) {
                old(self).involved@
            } else {
                old(self).involved@.push(target)
            },
    {
        if !crate::target::contains_target(&self.involved, target) {
            self.involved.push(target);
        }
    }

    /// The compare verdict for a target: `Same` exactly when a current
    /// fingerprint is known and equals the persisted one; `Changed`
    /// when it differs or nothing was persisted (a deleted store falls
    /// back to changed); an error when no current fingerprint is known,
    /// since the cache never guesses.
    pub open spec fn spec_compare(self, target: Target) -> Result<
        ChecksumCompareResult,
        ChecksumError,
    > {
        match alist_get(self.current@, target) {
            None => Err(ChecksumError::MissingFingerprint(target)),
            Some(fresh) => match alist_get(self.saved@, target) {
                Some(prev) => if fresh == prev {
                    Ok(ChecksumCompareResult::Same)
                } else {
                    Ok(ChecksumCompareResult::Changed)
                },
                None => Ok(ChecksumCompareResult::Changed),
            },
        }
    }

    /// Compares the target's current fingerprint with the persisted
    /// one. Read-only: repeated calls return the same verdict.
    pub fn compare_checksum(&self, target: Target) -> (r: Result<
        ChecksumCompareResult,
        ChecksumError,
    >)
        ensures
            r == self.spec_compare(target),
    {
        match alist_lookup(&self.current, target) {
            None => Err(ChecksumError::MissingFingerprint(target)),
            Some(fresh) => match alist_lookup(&self.saved, target) {
                Some(prev) => if fresh == prev {
                    Ok(ChecksumCompareResult::Same)
                } else {
                    Ok(ChecksumCompareResult::Changed)
                },
                None => Ok(ChecksumCompareResult::Changed),
            },
        }
    }

    /// Evicts a target from the cache: its persisted and current
    /// fingerprints are forgotten, as is its registration. Used by the
    /// clean path so that the next run sees the target as changed.
    pub fn remove_hash_if_exist(&mut self, target: Target)
        requires
            old(self).wf(),
        ensures
            final(self).wf(),
            final(self).production == old(self).production,
            forall|t2: Target| #[trigger]
                alist_get(final(self).saved@, t2) == if t2 == target {
                    None
                } else {
                    alist_get(old(self).saved@, t2)
                },
            forall|t2: Target| #[trigger]
                alist_get(final(self).current@, t2) == if t2 == target {
                    None
                } else {
                    alist_get(old(self).current@, t2)
                },
            forall|t2: Target|
                final(self).involved@.contains(t2) <==> (old(self).involved@.contains(t2) && t2
                    != target),
    {
        self.saved = alist_remove(&self.saved, target);
        self.current = alist_remove(&self.current, target);
        let mut kept: Vec<Target> = Vec::new();
        let mut i: usize = 0;
        while i < self.involved.len()
            invariant
                i <= self.involved@.len(),
                forall|a: int, b: int|
                    0 <= a < b < self.involved@.len() ==> self.involved@[a] != self.involved@[b],
                forall|t2: Target| #[trigger]
                    kept@.contains(t2) <==> (self.involved@.subrange(0, i as int).contains(t2) && t2
                        != target),
                forall|a: int, b: int| 0 <= a < b < kept@.len() ==> kept@[a] != kept@[b],
                forall|m: int| 0 <= m < kept@.len() ==> exists|n: int|
                    0 <= n < i && #[trigger] kept@[m] == self.involved@[n],
            decreases self.involved@.len() - i,
        {
            let ghost prefix = self.involved@.subrange(0, i as int);
            let ghost prefix1 = self.involved@.subrange(0, i as int + 1);
            assert(prefix1.drop_last() =~= prefix);
            assert(prefix1.last() == self.involved@[i as int]);
            let ghost old_kept = kept@;
            if self.involved[i] != target {
                kept.push(self.involved[i]);
                assert forall|a: int, b: int| 0 <= a < b < kept@.len() implies kept@[a]
                    != kept@[b] by {
                    if b == kept@.len() - 1 {
                        let n = choose|n: int| 0 <= n < i && old_kept[a] == self.involved@[n];
                        assert(kept@[a] == self.involved@[n]);
                    }
                }
            }
            assert forall|t2: Target| #[trigger]
                kept@.contains(t2) <==> (prefix1.contains(t2) && t2 != target) by {
                if prefix1.contains(t2) && t2 != target {
                    let n = choose|n: int| 0 <= n < prefix1.len() && prefix1[n] == t2;
                    if n < i {
                        assert(prefix[n] == t2);
                        assert(prefix.contains(t2));
                        assert(old_kept.contains(t2));
                        let m = choose|m: int| 0 <= m < old_kept.len() && old_kept[m] == t2;
                        assert(kept@[m] == t2);
                    } else {
                        assert(self.involved@[i as int] == t2);
                        assert(kept@[kept@.len() - 1] == t2);
                    }
                }
                if kept@.contains(t2) {
                    let m = choose|m: int| 0 <= m < kept@.len() && kept@[m] == t2;
                    if m < old_kept.len() {
                        assert(old_kept[m] == t2);
                        assert(old_kept.contains(t2));
                        assert(prefix.contains(t2));
                        let n = choose|n: int| 0 <= n < prefix.len() && prefix[n] == t2;
                        assert(prefix1[n] == t2);
                    } else {
                        assert(kept@[m] == self.involved@[i as int]);
                        assert(prefix1[i as int] == t2);
                    }
                }
            }
            i = i + 1;
        }
        assert(self.involved@.subrange(0, self.involved@.len() as int) =~= self.involved@);
        self.involved = kept;
    }

    /// What a fingerprint lookup yields after the run's updates: for a
    /// build-pipeline run, every registered target with a known current
    /// fingerprint gets that fresh fingerprint; everything else keeps
    /// its persisted value.
    pub open spec fn spec_updated_get(self, job_type: JobType, t: Target) -> Option<u64> {
        if job_type.spec_is_part_of_build() && self.involved@.contains(t) && alist_get(
            self.current@,
            t,
        ) is Some {
            alist_get(self.current@, t)
        } else {
            alist_get(self.saved@, t)
        }
    }

    /// Computes the fingerprint table to persist after all scheduling
    /// work of the run is over. The caller writes the returned table to
    /// the generation's store with an atomic replace. Read-only on the
    /// cache itself: computing the table changes no verdict.
    pub fn update_and_save(&self, job_type: JobType) -> (r: Vec<(Target, u64)>)
        requires
            self.wf(),
        ensures
            alist_distinct(r@),
            forall|t: Target| #[trigger] alist_get(r@, t) == self.spec_updated_get(job_type, t),
    {
        if !job_type.is_part_of_build() {
            let mut out: Vec<(Target, u64)> = Vec::new();
            let mut i: usize = 0;
            assert(self.saved@.subrange(0, 0) =~= Seq::<(Target, u64)>::empty());
            while i < self.saved.len()
                invariant
                    i <= self.saved@.len(),
                    out@ == self.saved@.subrange(0, i as int),
                decreases self.saved@.len() - i,
            {
                out.push(self.saved[i]);
                assert(out@ =~= self.saved@.subrange(0, i as int + 1));
                i = i + 1;
            }
            assert(out@ =~= self.saved@);
            out
        } else {
            // Entries of registered targets that will be refreshed are
            // left out first, then the fresh fingerprints are appended.
            let mut out: Vec<(Target, u64)> = Vec::new();
            let mut i: usize = 0;
            assert(self.saved@.subrange(0, 0) =~= Seq::<(Target, u64)>::empty());
            while i < self.saved.len()
                invariant
                    i <= self.saved@.len(),
                    self.wf(),
                    alist_distinct(out@),
                    forall|m: int| 0 <= m < out@.len() ==> exists|n: int|
                        0 <= n < i && #[trigger] out@[m] == self.saved@[n],
                    forall|t: Target| #[trigger]
                        alist_get(out@, t) == if self.involved@.contains(t) && alist_get(
                            self.current@,
                            t,
                        ) is Some {
                            None
                        } else {
                            alist_get(self.saved@.subrange(0, i as int), t)
                        },
                decreases self.saved@.len() - i,
            {
                assert(self.saved@.subrange(0, i as int + 1).drop_last() =~= self.saved@.subrange(
                    0,
                    i as int,
                ));
                let key = self.saved[i].0;
                let refreshed = crate::target::contains_target(&self.involved, key)
                    && alist_lookup(&self.current, key).is_some();
                if !refreshed {
                    proof {
                        lemma_alist_get_push(out@, self.saved@[i as int].0, self.saved@[i as int].1);
                    }
                    let ghost old_out = out@;
                    out.push(self.saved[i]);
                    assert forall|m: int| 0 <= m < out@.len() implies exists|n: int|
                        0 <= n < i + 1 && #[trigger] out@[m] == self.saved@[n] by {
                        if m < out@.len() - 1 {
                            assert(out@[m] == old_out[m]);
                        } else {
                            assert(out@[m] == self.saved@[i as int]);
                        }
                    }
                    assert forall|a: int, b: int| 0 <= a < b < out@.len() implies (
                    #[trigger] out@[a]).0 != (#[trigger] out@[b]).0 by {
                        if b == out@.len() - 1 {
                            let n = choose|n: int| 0 <= n < i && old_out[a] == self.saved@[n];
                            assert(out@[a] == self.saved@[n]);
                            assert(out@[b] == self.saved@[i as int]);
                        }
                    }
                }
                i = i + 1;
            }
            assert(self.saved@.subrange(0, self.saved@.len() as int) =~= self.saved@);
            // Append the fresh fingerprint of every registered target.
            let mut j: usize = 0;
            while j < self.involved.len()
                invariant
                    j <= self.involved@.len(),
                    self.wf(),
                    alist_distinct(out@),
                    forall|t: Target| #[trigger]
                        alist_get(out@, t) == if self.involved@.contains(t) && alist_get(
                            self.current@,
                            t,
                        ) is Some {
                            if self.involved@.subrange(0, j as int).contains(t) {
                                alist_get(self.current@, t)
                            } else {
                                None
                            }
                        } else {
                            alist_get(self.saved@, t)
                        },
                decreases self.involved@.len() - j,
            {
                let ghost prefix = self.involved@.subrange(0, j as int);
                let ghost prefix1 = self.involved@.subrange(0, j as int + 1);
                assert(prefix1.drop_last() =~= prefix);
                let t = self.involved[j];
                assert(self.involved@.contains(t)) by {
                    assert(self.involved@[j as int] == t);
                }
                assert(prefix1[j as int] == t);
                match alist_lookup(&self.current, t) {
                    Some(fresh) => {
                        proof {
                            lemma_alist_get_none(out@, t);
                            lemma_alist_get_push(out@, t, fresh);
                        }
                        let ghost old_out = out@;
                        out.push((t, fresh));
                        assert forall|a: int, b: int| 0 <= a < b < out@.len() implies (
                        #[trigger] out@[a]).0 != (#[trigger] out@[b]).0 by {
                            if b == out@.len() - 1 {
                                assert(alist_get(old_out, old_out[a].0) == Some(old_out[a].1)) by {
                                    lemma_alist_get_present(old_out, a);
                                }
                            }
                        }
                        assert forall|t2: Target| #[trigger]
                            alist_get(out@, t2) == if self.involved@.contains(t2) && alist_get(
                                self.current@,
                                t2,
                            ) is Some {
                                if prefix1.contains(t2) {
                                    alist_get(self.current@, t2)
                                } else {
                                    None
                                }
                            } else {
                                alist_get(self.saved@, t2)
                            } by {
                            if t2 == t {
                                assert(alist_get(out@, t2) == Some(fresh));
                            } else {
                                assert(alist_get(out@, t2) == alist_get(old_out, t2));
                                if prefix1.contains(t2) {
                                    let n = choose|n: int|
                                        0 <= n < prefix1.len() && prefix1[n] == t2;
                                    assert(n != j);
                                    assert(prefix[n] == t2);
                                    assert(prefix.contains(t2));
                                }
                                if prefix.contains(t2) {
                                    let n = choose|n: int| 0 <= n < prefix.len() && prefix[n] == t2;
                                    assert(prefix1[n] == t2);
                                    assert(prefix1.contains(t2));
                                }
                            }
                        }
                    },
                    None => {
                        assert forall|t2: Target| #[trigger]
                            alist_get(out@, t2) == if self.involved@.contains(t2) && alist_get(
                                self.current@,
                                t2,
                            ) is Some {
                                if prefix1.contains(t2) {
                                    alist_get(self.current@, t2)
                                } else {
                                    None
                                }
                            } else {
                                alist_get(self.saved@, t2)
                            } by {
                            if t2 != t {
                                if prefix1.contains(t2) {
                                    let n = choose|n: int|
                                        0 <= n < prefix1.len() && prefix1[n] == t2;
                                    assert(n != j);
                                    assert(prefix[n] == t2);
                                    assert(prefix.contains(t2));
                                }
                                if prefix.contains(t2) {
                                    let n = choose|n: int| 0 <= n < prefix.len() && prefix[n] == t2;
                                    assert(prefix1[n] == t2);
                                    assert(prefix1.contains(t2));
                                }
                            }
                        }
                    },
                }
                j = j + 1;
            }
            assert(self.involved@.subrange(0, self.involved@.len() as int) =~= self.involved@);
            out
        }
    }
}

/// The compare verdict depends on the two fingerprint tables alone.
/// Registering targets, computing the table to persist, and comparing
/// itself leave both tables untouched, so repeated `compare_checksum`
/// calls without an intervening reload of the store return the same
/// verdict.
pub proof fn lemma_compare_depends_only_on_fingerprints(
    a: ChecksumRecords,
    b: ChecksumRecords,
    t: Target,
)
    requires
        a.saved@ == b.saved@,
        a.current@ == b.current@,
    ensures
        a.spec_compare(t) == b.spec_compare(t),
{
}

} // verus!
