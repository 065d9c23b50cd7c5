//! Expands requested targets and one requested job type into the full
//! closure of job definitions with their prerequisite edges.

use vstd::prelude::*;

use crate::job_definition::{lemma_depends_on_descends, JobDefinition};
use crate::job_type::JobType;
use crate::target::{contains_target, Target};

verus! {

/// The transitive closure of the target dependency relation, written
/// out over the static catalog. [`lemma_tdep_direct`],
/// [`lemma_tdep_step`] and [`lemma_tdep_last_step`] prove that this
/// table is exactly the closure of [`Target::spec_deps`].
pub open spec fn spec_depends_transitively(a: Target, b: Target) -> bool {
    match a {
        Target::Core => false,
        Target::Shared => false,
        Target::Binding => b == Target::Shared,
        Target::Wrapper => b == Target::Binding || b == Target::Shared,
        Target::Wasm => false,
        Target::Client => b == Target::Shared || b == Target::Wasm,
        Target::Updater => false,
        Target::App => b != Target::App && b != Target::Cli,
        Target::Cli => false,
    }
}

/// A direct dependency is in the transitive closure.
pub proof fn lemma_tdep_direct(a: Target, b: Target)
    requires
        a.spec_deps().contains(b),
    ensures
        spec_depends_transitively(a, b),
{
    crate::target::lemma_deps_are_declared_earlier(a, b);
}

/// The closure absorbs one more direct dependency step at its end.
pub proof fn lemma_tdep_step(r: Target, s: Target, t: Target)
    requires
        spec_depends_transitively(r, s),
        s.spec_deps().contains(t),
    ensures
        spec_depends_transitively(r, t),
{
    crate::target::lemma_deps_are_declared_earlier(s, t);
}

/// Every transitive dependency is reached through a last direct step:
/// some target that directly depends on it and is itself the start or
/// one of its transitive dependencies.
pub proof fn lemma_tdep_last_step(r: Target, t: Target)
    requires
        spec_depends_transitively(r, t),
    ensures
        exists|s: Target| #[trigger]
            s.spec_deps().contains(t) && (s == r || spec_depends_transitively(r, s)),
{
    if r == Target::Binding {
        assert(r.spec_deps()[0] == t);
        assert(r.spec_deps().contains(t) && (r == r || spec_depends_transitively(r, r)));
    } else if r == Target::Client {
        if t == Target::Shared {
            assert(r.spec_deps()[0] == t);
        } else {
            assert(r.spec_deps()[1] == t);
        }
        assert(r.spec_deps().contains(t) && (r == r || spec_depends_transitively(r, r)));
    } else if r == Target::Wrapper {
        if t == Target::Binding {
            assert(r.spec_deps()[0] == t);
            assert(r.spec_deps().contains(t) && (r == r || spec_depends_transitively(r, r)));
        } else {
            let s = Target::Binding;
            assert(s.spec_deps()[0] == Target::Shared);
            assert(s.spec_deps().contains(t) && (s == r || spec_depends_transitively(r, s)));
        }
    } else {
        assert(r == Target::App);
        if t == Target::Wrapper {
            assert(r.spec_deps()[0] == t);
            assert(r.spec_deps().contains(t) && (r == r || spec_depends_transitively(r, r)));
        } else if t == Target::Client {
            assert(r.spec_deps()[1] == t);
            assert(r.spec_deps().contains(t) && (r == r || spec_depends_transitively(r, r)));
        } else if t == Target::Core {
            assert(r.spec_deps()[2] == t);
            assert(r.spec_deps().contains(t) && (r == r || spec_depends_transitively(r, r)));
        } else if t == Target::Updater {
            assert(r.spec_deps()[3] == t);
            assert(r.spec_deps().contains(t) && (r == r || spec_depends_transitively(r, r)));
        } else if t == Target::Binding {
            let s = Target::Wrapper;
            assert(s.spec_deps()[0] == t);
            assert(s.spec_deps().contains(t) && (s == r || spec_depends_transitively(r, s)));
        } else if t == Target::Shared {
            let s = Target::Binding;
            assert(s.spec_deps()[0] == t);
            assert(s.spec_deps().contains(t) && (s == r || spec_depends_transitively(r, s)));
        } else {
            assert(t == Target::Wasm);
            let s = Target::Client;
            assert(s.spec_deps()[1] == t);
            assert(s.spec_deps().contains(t) && (s == r || spec_depends_transitively(r, s)));
        }
    }
}

/// Whether a target takes part in a run: it was requested, or the run
/// is a build pipeline and some requested target transitively depends
/// on it.
pub open spec fn spec_involved(requested: Seq<Target>, main_job: JobType, t: Target) -> bool {
    ||| requested.contains(t)
    ||| (main_job.spec_is_part_of_build() && exists|s: Target|
        #[trigger] requested.contains(s) && spec_depends_transitively(s, t))
}

/// Whether the resolver schedules a job: its target is involved, its
/// job type belongs to the requested job's pipeline, and the target
/// has a job of that type.
pub open spec fn spec_should_schedule(
    requested: Seq<Target>,
    main_job: JobType,
    jd: JobDefinition,
) -> bool {
    &&& spec_involved(requested, main_job, jd.target)
    &&& main_job.spec_involved_job_types().contains(jd.job_type)
    &&& jd.target.spec_has_job(jd.job_type)
}

/// The targets involved in a run, in declaration order.
pub fn involved_targets(requested: &Vec<Target>, main_job: JobType) -> (r: Vec<Target>)
    ensures
        forall|t: Target| #[trigger] r@.contains(t) <==> spec_involved(requested@, main_job, t),
        forall|k1: int, k2: int|
            0 <= k1 < k2 < r@.len() ==> r@[k1].spec_ordinal() < r@[k2].spec_ordinal(),
{
    let all = Target::all();
    // Walk the targets from the last declared to the first: every
    // dependency edge points at an earlier target, so each target's
    // involvement is settled by the already processed ones.
    let mut acc: Vec<Target> = Vec::new();
    let mut i: usize = 9;
    while i > 0
        invariant
            i <= 9,
            all@.len() == 9,
            forall|k: int| 0 <= k < 9 ==> (#[trigger] all@[k]).spec_ordinal() == k,
            forall|t2: Target| #[trigger]
                acc@.contains(t2) <==> (t2.spec_ordinal() >= i && spec_involved(
                    requested@,
                    main_job,
                    t2,
                )),
            forall|k1: int, k2: int|
                0 <= k1 < k2 < acc@.len() ==> acc@[k1].spec_ordinal() > acc@[k2].spec_ordinal(),
        decreases i,
    {
        i = i - 1;
        let t = all[i];
        assert(t.spec_ordinal() == i);
        let mut inc = contains_target(requested, t);
        if main_job.is_part_of_build() && !inc {
            let mut m: usize = 0;
            while m < acc.len()
                invariant
                    m <= acc@.len(),
                    inc == (requested@.contains(t) || exists|n: int|
                        0 <= n < m && (#[trigger] acc@[n]).spec_deps().contains(t)),
                decreases acc@.len() - m,
            {
                let deps = acc[m].deps();
                if contains_target(&deps, t) {
                    inc = true;
                    assert(acc@[m as int].spec_deps().contains(t));
                }
                m = m + 1;
            }
        }
        assert(inc == spec_involved(requested@, main_job, t)) by {
            if inc {
                if !requested@.contains(t) {
                    let n = choose|n: int|
                        0 <= n < acc@.len() && (#[trigger] acc@[n]).spec_deps().contains(t);
                    let s = acc@[n];
                    assert(acc@.contains(s));
                    assert(spec_involved(requested@, main_job, s));
                    if requested@.contains(s) {
                        lemma_tdep_direct(s, t);
                        assert(requested@.contains(s) && spec_depends_transitively(s, t));
                    } else {
                        let r = choose|r: Target| #[trigger]
                            requested@.contains(r) && spec_depends_transitively(r, s);
                        lemma_tdep_step(r, s, t);
                        assert(requested@.contains(r) && spec_depends_transitively(r, t));
                    }
                }
            } else {
                if spec_involved(requested@, main_job, t) {
                    assert(!requested@.contains(t));
                    let r = choose|r: Target| #[trigger]
                        requested@.contains(r) && spec_depends_transitively(r, t);
                    lemma_tdep_last_step(r, t);
                    let s = choose|s: Target| #[trigger]
                        s.spec_deps().contains(t) && (s == r || spec_depends_transitively(r, s));
                    assert(spec_involved(requested@, main_job, s)) by {
                        if s != r {
                            assert(requested@.contains(r) && spec_depends_transitively(r, s));
                        }
                    }
                    crate::target::lemma_deps_are_declared_earlier(s, t);
                    assert(acc@.contains(s));
                    let n = choose|n: int| 0 <= n < acc@.len() && acc@[n] == s;
                    assert((acc@[n]).spec_deps().contains(t));
                }
            }
        }
        let ghost old_acc = acc@;
        if inc {
            acc.push(t);
            assert forall|k1: int, k2: int| 0 <= k1 < k2 < acc@.len() implies acc@[k1].spec_ordinal()
                > acc@[k2].spec_ordinal() by {
            if k2 == acc@.len() - 1 {
                    assert(acc@[k1] == old_acc[k1]);
                    assert(old_acc.contains(old_acc[k1]));
                    assert(old_acc[k1].spec_ordinal() >= i + 1);
                }
            }
        }
        assert forall|t2: Target| #[trigger]
            acc@.contains(t2) <==> (t2.spec_ordinal() >= i && spec_involved(
                requested@,
                main_job,
                t2,
            )) by {
            if acc@.contains(t2) {
                let n = choose|n: int| 0 <= n < acc@.len() && acc@[n] == t2;
                if n < old_acc.len() {
                    assert(old_acc[n] == t2);
                    assert(old_acc.contains(t2));
                }
            }
            if t2.spec_ordinal() >= i && spec_involved(requested@, main_job, t2) {
                if t2.spec_ordinal() >= i + 1 {
                    assert(old_acc.contains(t2));
                    let n = choose|n: int| 0 <= n < old_acc.len() && old_acc[n] == t2;
                    assert(acc@[n] == t2);
                } else {
                    assert(t2.spec_ordinal() == i);
                    assert(t2 == t) by {
                        lemma_ordinal_injective(t2, t);
                    }
                    assert(acc@[acc@.len() - 1] == t);
                }
            }
        }
    }
    // Reverse into declaration order.
    let mut r: Vec<Target> = Vec::new();
    let mut k: usize = acc.len();
    while k > 0
        invariant
            k <= acc@.len(),
            r@.len() == acc@.len() - k,
            forall|m: int| 0 <= m < r@.len() ==> r@[m] == acc@[acc@.len() - 1 - m],
        decreases k,
    {
        k = k - 1;
        r.push(acc[k]);
    }
    assert forall|t: Target| #[trigger] r@.contains(t) <==> acc@.contains(t) by {
        if r@.contains(t) {
            let m = choose|m: int| 0 <= m < r@.len() && r@[m] == t;
            assert(acc@[acc@.len() - 1 - m] == t);
        }
        if acc@.contains(t) {
            let n = choose|n: int| 0 <= n < acc@.len() && acc@[n] == t;
            assert(r@[acc@.len() - 1 - n] == t);
        }
    }
    assert forall|k1: int, k2: int| 0 <= k1 < k2 < r@.len() implies r@[k1].spec_ordinal()
        < r@[k2].spec_ordinal() by {
        assert(r@[k1] == acc@[acc@.len() - 1 - k1]);
        assert(r@[k2] == acc@[acc@.len() - 1 - k2]);
    }
    r
}

/// Distinct targets have distinct declaration-order positions.
proof fn lemma_ordinal_injective(a: Target, b: Target)
    requires
        a.spec_ordinal() == b.spec_ordinal(),
    ensures
        a == b,
{
}

/// The job graph of one run: the scheduled job definitions in their
/// total order, and for each job the indices of the jobs it must wait
/// for. Every prerequisite index points strictly backwards, so the
/// graph is acyclic by construction.
#[derive(Debug, Clone)]
pub struct JobGraph {
    /// The scheduled jobs, strictly ascending in the job order.
    pub jobs: Vec<JobDefinition>,
    /// For each job, the indices of its prerequisite jobs, strictly
    /// ascending; `deps[i]` holds `j` exactly when job `i` depends on
    /// job `j`.
    pub deps: Vec<Vec<usize>>,
}

/// Whether the graph has an edge saying that job `i` waits for job `j`.
pub open spec fn spec_dep_edge(g: JobGraph, i: int, j: int) -> bool {
    exists|k: int| 0 <= k < g.deps@[i]@.len() && g.deps@[i]@[k] == j
}

/// Whether a job definition is part of the graph.
pub open spec fn spec_contains_job(g: JobGraph, jd: JobDefinition) -> bool {
    exists|i: int| 0 <= i < g.jobs@.len() && g.jobs@[i] == jd
}

impl JobGraph {
    /// Well-formedness of a job graph: one prerequisite list per job;
    /// jobs strictly ascending in the job order (so every job occurs
    /// once); prerequisite indices in range, strictly ascending and
    /// strictly smaller than the job they belong to (acyclicity); and
    /// the edges are exactly the job dependency relation.
    pub open spec fn wf(self) -> bool {
        &&& self.jobs@.len() == self.deps@.len()
        &&& (forall|k1: int, k2: int|
            0 <= k1 < k2 < self.jobs@.len() ==> (#[trigger] self.jobs@[k1]).spec_order() < (
            #[trigger] self.jobs@[k2]).spec_order())
        &&& (forall|i: int, k: int|
            0 <= i < self.deps@.len() && 0 <= k < self.deps@[i]@.len() ==> (#[trigger] self.deps@[i]@[k])
                < i)
        &&& (forall|i: int, k1: int, k2: int|
            0 <= i < self.deps@.len() && 0 <= k1 < k2 < self.deps@[i]@.len() ==> (
            #[trigger] self.deps@[i]@[k1]) < (#[trigger] self.deps@[i]@[k2]))
        &&& (forall|i: int, j: int|
            0 <= i < self.jobs@.len() && 0 <= j < self.jobs@.len() ==> (#[trigger] spec_dep_edge(
                self,
                i,
                j,
            ) <==> self.jobs@[i].spec_depends_on(self.jobs@[j])))
    }

    /// The number of jobs in the graph.
    pub fn len(&self) -> (r: usize)
        ensures
            r == self.jobs@.len(),
    {
        self.jobs.len()
    }
}

/// Expands the requested targets and the requested job type into the
/// job graph of the run: the involved targets' applicable jobs of the
/// requested pipeline, each with the jobs it must wait for — the
/// earlier jobs of its own target's pipeline and every job of each
/// target its target depends on.
pub fn resolve(targets: &Vec<Target>, main_job: JobType) -> (g: JobGraph)
    ensures
        g.wf(),
        forall|jd: JobDefinition| #[trigger]
            spec_contains_job(g, jd) <==> spec_should_schedule(targets@, main_job, jd),
{
    let involved = involved_targets(targets, main_job);
    let jts = main_job.involved_job_types();
    let mut jobs: Vec<JobDefinition> = Vec::new();
    let mut ti: usize = 0;
    while ti < involved.len()
        invariant
            ti <= involved@.len(),
            jts@ == main_job.spec_involved_job_types(),
            forall|k1: int, k2: int|
                0 <= k1 < k2 < jts@.len() ==> jts@[k1].spec_rank() < jts@[k2].spec_rank(),
            forall|t: Target| #[trigger]
                involved@.contains(t) <==> spec_involved(targets@, main_job, t),
            forall|k1: int, k2: int|
                0 <= k1 < k2 < involved@.len() ==> involved@[k1].spec_ordinal()
                    < involved@[k2].spec_ordinal(),
            forall|k1: int, k2: int|
                0 <= k1 < k2 < jobs@.len() ==> (#[trigger] jobs@[k1]).spec_order() < (
                #[trigger] jobs@[k2]).spec_order(),
            forall|k: int| 0 <= k < jobs@.len() ==> exists|m: int|
                0 <= m < ti && (#[trigger] jobs@[k]).target == involved@[m],
            forall|jd: JobDefinition| #[trigger]
                jobs@.contains(jd) <==> (involved@.subrange(0, ti as int).contains(jd.target)
                    && jts@.contains(jd.job_type) && jd.target.spec_has_job(jd.job_type)),
        decreases involved@.len() - ti,
    {
        let t = involved[ti];
        let mut ji: usize = 0;
        while ji < jts.len()
            invariant
                ji <= jts@.len(),
                ti < involved@.len(),
                t == involved@[ti as int],
                jts@ == main_job.spec_involved_job_types(),
                forall|k1: int, k2: int|
                    0 <= k1 < k2 < jts@.len() ==> jts@[k1].spec_rank() < jts@[k2].spec_rank(),
                forall|k1: int, k2: int|
                    0 <= k1 < k2 < involved@.len() ==> involved@[k1].spec_ordinal()
                        < involved@[k2].spec_ordinal(),
                forall|k1: int, k2: int|
                    0 <= k1 < k2 < jobs@.len() ==> (#[trigger] jobs@[k1]).spec_order() < (
                    #[trigger] jobs@[k2]).spec_order(),
                forall|k: int|
                    0 <= k < jobs@.len() ==> (#[trigger] jobs@[k]).target.spec_ordinal()
                        <= t.spec_ordinal(),
                forall|k: int|
                    0 <= k < jobs@.len() && (#[trigger] jobs@[k]).target == t ==> exists|m: int|
                        0 <= m < ji && jobs@[k].job_type == jts@[m],
                forall|jd: JobDefinition| #[trigger]
                    jobs@.contains(jd) <==> ((involved@.subrange(0, ti as int).contains(jd.target)
                        && jts@.contains(jd.job_type) && jd.target.spec_has_job(jd.job_type)) || (
                    jd.target == t && jts@.subrange(0, ji as int).contains(jd.job_type)
                        && t.spec_has_job(jd.job_type))),
            decreases jts@.len() - ji,
        {
            let jt = jts[ji];
            let ghost old_jobs = jobs@;
            if t.has_job(jt) {
                let jd = JobDefinition::new(t, jt);
                proof {
                    if jobs@.len() > 0 {
                        let last = jobs@[jobs@.len() - 1];
                        if last.target == t {
                            let m = choose|m: int| 0 <= m < ji && last.job_type == jts@[m];
                            assert(jts@[m].spec_rank() < jt.spec_rank());
                        }
                    }
                }
                jobs.push(jd);
                assert forall|k1: int, k2: int| 0 <= k1 < k2 < jobs@.len() implies (
                #[trigger] jobs@[k1]).spec_order() < (#[trigger] jobs@[k2]).spec_order() by {
                    if k2 == jobs@.len() - 1 {
                        assert(jobs@[k1] == old_jobs[k1]);
                        if k1 < old_jobs.len() - 1 {
                            assert(old_jobs[k1].spec_order() < old_jobs[old_jobs.len()
                                - 1].spec_order());
                        }
                    }
                }
            }
            assert forall|jd: JobDefinition| #[trigger]
                jobs@.contains(jd) <==> ((involved@.subrange(0, ti as int).contains(jd.target)
                    && jts@.contains(jd.job_type) && jd.target.spec_has_job(jd.job_type)) || (
                jd.target == t && jts@.subrange(0, ji as int + 1).contains(jd.job_type)
                    && t.spec_has_job(jd.job_type))) by {
                let pre = jts@.subrange(0, ji as int);
                let pre1 = jts@.subrange(0, ji as int + 1);
                assert(pre1.drop_last() =~= pre);
                assert(pre1[ji as int] == jt);
                if jobs@.contains(jd) {
                    let n = choose|n: int| 0 <= n < jobs@.len() && jobs@[n] == jd;
                    if n < old_jobs.len() {
                        assert(old_jobs[n] == jd);
                        assert(old_jobs.contains(jd));
                        if jd.target == t && pre.contains(jd.job_type) {
                            let m = choose|m: int| 0 <= m < pre.len() && pre[m] == jd.job_type;
                            assert(pre1[m] == jd.job_type);
                        }
                        if jts@.contains(jd.job_type) {
                        }
                    } else {
                        assert(jd == (JobDefinition { target: t, job_type: jt }));
                        assert(pre1.contains(jt)) by {
                            assert(pre1[ji as int] == jt);
                        }
                    }
                } else {
                    assert(!old_jobs.contains(jd)) by {
                        if old_jobs.contains(jd) {
                            let n = choose|n: int| 0 <= n < old_jobs.len() && old_jobs[n] == jd;
                            assert(jobs@[n] == jd);
                        }
                    }
                    if jd.target == t && pre1.contains(jd.job_type) && t.spec_has_job(
                        jd.job_type,
                    ) {
                        let m = choose|m: int| 0 <= m < pre1.len() && pre1[m] == jd.job_type;
                        if m < ji {
                            assert(pre[m] == jd.job_type);
                            assert(pre.contains(jd.job_type));
                            assert(old_jobs.contains(jd));
                            let n = choose|n: int| 0 <= n < old_jobs.len() && old_jobs[n] == jd;
                            assert(jobs@[n] == jd);
                            assert(false);
                        } else {
                            assert(jd.job_type == jt);
                            assert(t.spec_has_job(jt));
                            assert(jobs@[jobs@.len() - 1] == jd);
                            assert(false);
                        }
                    }
                }
            }
            ji = ji + 1;
        }
        assert forall|jd: JobDefinition| #[trigger]
            jobs@.contains(jd) <==> (involved@.subrange(0, ti as int + 1).contains(jd.target)
                && jts@.contains(jd.job_type) && jd.target.spec_has_job(jd.job_type)) by {
            let pre = involved@.subrange(0, ti as int);
            let pre1 = involved@.subrange(0, ti as int + 1);
            assert(pre1.drop_last() =~= pre);
            assert(pre1[ti as int] == t);
            assert(jts@.subrange(0, jts@.len() as int) =~= jts@);
            if jobs@.contains(jd) {
                if jd.target == t {
                    assert(pre1.contains(t)) by {
                        assert(pre1[ti as int] == t);
                    }
                } else {
                    assert(pre.contains(jd.target));
                    let n = choose|n: int| 0 <= n < pre.len() && pre[n] == jd.target;
                    assert(pre1[n] == jd.target);
                }
            } else {
                if pre1.contains(jd.target) && jts@.contains(jd.job_type) && jd.target.spec_has_job(
                    jd.job_type,
                ) {
                    let n = choose|n: int| 0 <= n < pre1.len() && pre1[n] == jd.target;
                    if n < ti {
                        assert(pre[n] == jd.target);
                        assert(pre.contains(jd.target));
                    } else {
                        assert(jd.target == t);
                    }
                }
            }
        }
        assert forall|k: int| 0 <= k < jobs@.len() implies exists|m: int|
            0 <= m < ti + 1 && (#[trigger] jobs@[k]).target == involved@[m] by {
            let jd = jobs@[k];
            assert(jobs@.contains(jd));
            let pre1 = involved@.subrange(0, ti as int + 1);
            assert(pre1.contains(jd.target));
            let n = choose|n: int| 0 <= n < pre1.len() && pre1[n] == jd.target;
            assert(involved@[n] == jd.target);
        }
        ti = ti + 1;
    }
    assert(involved@.subrange(0, involved@.len() as int) =~= involved@);
    // Collect the prerequisite edges: all of them point backwards in
    // the job order, so scanning the earlier jobs finds every edge.
    let mut deps: Vec<Vec<usize>> = Vec::new();
    let mut i: usize = 0;
    while i < jobs.len()
        invariant
            i <= jobs@.len(),
            deps@.len() == i,
            forall|k1: int, k2: int|
                0 <= k1 < k2 < jobs@.len() ==> (#[trigger] jobs@[k1]).spec_order() < (
                #[trigger] jobs@[k2]).spec_order(),
            forall|a: int, k: int|
                0 <= a < deps@.len() && 0 <= k < deps@[a]@.len() ==> (#[trigger] deps@[a]@[k]) < a,
            forall|a: int, k1: int, k2: int|
                0 <= a < deps@.len() && 0 <= k1 < k2 < deps@[a]@.len() ==> (#[trigger] deps@[a]@[k1])
                    < (#[trigger] deps@[a]@[k2]),
            forall|a: int, j: int|
                0 <= a < deps@.len() && 0 <= j < jobs@.len() ==> ((exists|k: int|
                    0 <= k < deps@[a]@.len() && deps@[a]@[k] == j) <==> jobs@[a].spec_depends_on(
                    jobs@[j],
                )),
        decreases jobs@.len() - i,
    {
        let mut di: Vec<usize> = Vec::new();
        let mut j: usize = 0;
        while j < i
            invariant
                j <= i,
                i < jobs@.len(),
                forall|k1: int, k2: int|
                    0 <= k1 < k2 < di@.len() ==> (#[trigger] di@[k1]) < (#[trigger] di@[k2]),
                forall|k: int| 0 <= k < di@.len() ==> (#[trigger] di@[k]) < j,
                forall|j2: int|
                    0 <= j2 < j ==> ((exists|k: int| 0 <= k < di@.len() && di@[k] == j2)
                        <==> jobs@[i as int].spec_depends_on(jobs@[j2])),
            decreases i - j,
        {
            let ghost old_di = di@;
            if jobs[i].depends_on(&jobs[j]) {
                di.push(j);
            }
            assert forall|j2: int|
                0 <= j2 < j + 1 implies ((exists|k: int| 0 <= k < di@.len() && di@[k] == j2)
                <==> jobs@[i as int].spec_depends_on(jobs@[j2])) by {
                if j2 < j {
                    if exists|k: int| 0 <= k < old_di.len() && old_di[k] == j2 {
                        let k = choose|k: int| 0 <= k < old_di.len() && old_di[k] == j2;
                        assert(di@[k] == j2);
                    }
                    if exists|k: int| 0 <= k < di@.len() && di@[k] == j2 {
                        let k = choose|k: int| 0 <= k < di@.len() && di@[k] == j2;
                        assert(k < old_di.len());
                    }
                } else {
                    if jobs@[i as int].spec_depends_on(jobs@[j2]) {
                        assert(di@[di@.len() - 1] == j2);
                    }
                }
            }
            j = j + 1;
        }
        // A job never depends on itself or on a later job: dependencies
        // strictly descend in the job order.
        assert forall|j2: int|
            0 <= j2 < jobs@.len() implies ((exists|k: int| 0 <= k < di@.len() && di@[k] == j2)
            <==> jobs@[i as int].spec_depends_on(jobs@[j2])) by {
            if j2 >= i {
                if jobs@[i as int].spec_depends_on(jobs@[j2]) {
                    lemma_depends_on_descends(jobs@[i as int], jobs@[j2]);
                    if j2 > i {
                        assert(jobs@[i as int].spec_order() < jobs@[j2].spec_order());
                    }
                    assert(false);
                }
                if exists|k: int| 0 <= k < di@.len() && di@[k] == j2 {
                    let k = choose|k: int| 0 <= k < di@.len() && di@[k] == j2;
                    assert(di@[k] < i);
                    assert(false);
                }
            }
        }
        let ghost old_deps = deps@;
        deps.push(di);
        assert forall|a: int, j: int|
            0 <= a < deps@.len() && 0 <= j < jobs@.len() implies ((exists|k: int|
            0 <= k < deps@[a]@.len() && deps@[a]@[k] == j) <==> jobs@[a].spec_depends_on(
            jobs@[j],
        )) by {
            if a < old_deps.len() {
                assert(deps@[a] == old_deps[a]);
                if exists|k: int| 0 <= k < old_deps[a]@.len() && old_deps[a]@[k] == j {
                    let k = choose|k: int| 0 <= k < old_deps[a]@.len() && old_deps[a]@[k] == j;
                    assert(deps@[a]@[k] == j);
                }
            } else {
                assert(deps@[a] == di);
            }
        }
        i = i + 1;
    }
    let g = JobGraph { jobs, deps };
    assert(g.wf()) by {
        assert forall|a: int, j: int|
            0 <= a < g.jobs@.len() && 0 <= j < g.jobs@.len() implies (#[trigger] spec_dep_edge(
            g,
            a,
            j,
        ) <==> g.jobs@[a].spec_depends_on(g.jobs@[j])) by {
            if spec_dep_edge(g, a, j) {
                let k = choose|k: int| 0 <= k < g.deps@[a]@.len() && g.deps@[a]@[k] == j;
                assert(deps@[a]@[k] == j);
            }
            if g.jobs@[a].spec_depends_on(g.jobs@[j]) {
                let k = choose|k: int| 0 <= k < deps@[a]@.len() && deps@[a]@[k] == j;
                assert(g.deps@[a]@[k] == j);
            }
        }
    }
    assert forall|jd: JobDefinition| #[trigger]
        spec_contains_job(g, jd) <==> spec_should_schedule(targets@, main_job, jd) by {
        if spec_contains_job(g, jd) {
            let n = choose|n: int| 0 <= n < g.jobs@.len() && g.jobs@[n] == jd;
            assert(g.jobs@.contains(jd));
        }
        if spec_should_schedule(targets@, main_job, jd) {
            assert(involved@.contains(jd.target));
            assert(g.jobs@.contains(jd));
            let n = choose|n: int| 0 <= n < g.jobs@.len() && g.jobs@[n] == jd;
        }
    }
    g
}

/// Along the job order the targets never go backwards in declaration
/// order: the job order is primarily the target order.
pub proof fn lemma_job_order_target_monotone(g: JobGraph, j: int, i: int)
    requires
        g.wf(),
        0 <= j < i < g.jobs@.len(),
    ensures
        g.jobs@[j].target.spec_ordinal() <= g.jobs@[i].target.spec_ordinal(),
{
    assert(g.jobs@[j].spec_order() < g.jobs@[i].spec_order());
    if g.jobs@[j].target.spec_ordinal() > g.jobs@[i].target.spec_ordinal() {
        assert(g.jobs@[j].job_type.spec_rank() >= 0);
        assert(g.jobs@[i].job_type.spec_rank() <= 6);
        assert(false);
    }
}

} // verus!
