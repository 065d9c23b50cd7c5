//! The static catalog of buildable targets: identifiers, filesystem
//! roots, dependency edges and job-type applicability.

use vstd::prelude::*;

use crate::job_type::JobType;
use crate::location::Location;
use vstd::string::StringExecFns;

verus! {

/// Whether a target is built with the Rust or the TypeScript toolchain.
#[derive(Debug, Clone, Copy, PartialEq, Eq, Structural)]
pub enum TargetKind {
    /// Rust
    Rs,
    /// TypeScript
    Ts,
}

/// One buildable unit of the project. The declaration order is the
/// fixed total order of targets: every dependency of a target is
/// declared before it, which keeps the dependency relation acyclic.
#[derive(Debug, Clone, Copy, PartialEq, Eq, Hash, Structural)]
pub enum Target {
    /// Rust core of the indexer, under `application/apps/indexer`
    Core,
    /// Shared TypeScript platform code, under `application/platform`
    Shared,
    /// Rust bindings, under `application/apps/rustcore/rs-bindings`
    Binding,
    /// TypeScript bindings, under `application/apps/rustcore/ts-bindings`
    Wrapper,
    /// WASM bindings, under `application/apps/rustcore/wasm-bindings`
    Wasm,
    /// Client application, under `application/client`
    Client,
    /// Updater, under `application/apps/precompiled/updater`
    Updater,
    /// Electron holder application, under `application/holder`
    App,
    /// The build tool itself, under `cli`
    Cli,
}

impl Target {
    /// The position of the target in the declaration order.
    pub open spec fn spec_ordinal(self) -> int {
        match self {
            Target::Core => 0,
            Target::Shared => 1,
            Target::Binding => 2,
            Target::Wrapper => 3,
            Target::Wasm => 4,
            Target::Client => 5,
            Target::Updater => 6,
            Target::App => 7,
            Target::Cli => 8,
        }
    }

    /// The position of the target in the declaration order.
    pub fn ordinal(&self) -> (r: u8)
        ensures
            r as int == self.spec_ordinal(),
    {
        match self {
            Target::Core => 0,
            Target::Shared => 1,
            Target::Binding => 2,
            Target::Wrapper => 3,
            Target::Wasm => 4,
            Target::Client => 5,
            Target::Updater => 6,
            Target::App => 7,
            Target::Cli => 8,
        }
    }

    /// The direct dependencies of each target.
    pub open spec fn spec_deps(self) -> Seq<Target> {
        match self {
            Target::Core => seq![],
            Target::Shared => seq![],
            Target::Binding => seq![Target::Shared],
            Target::Wrapper => seq![Target::Binding, Target::Shared],
            Target::Wasm => seq![],
            Target::Client => seq![Target::Shared, Target::Wasm],
            Target::Updater => seq![],
            Target::App => seq![Target::Wrapper, Target::Client, Target::Core, Target::Updater],
            Target::Cli => seq![],
        }
    }

    /// The targets this target depends on directly.
    pub fn deps(&self) -> (r: Vec<Target>)
        ensures
            r@ == self.spec_deps(),
    {
        match self {
            Target::Core => {
                let v: Vec<Target> = Vec::new();
                assert(v@ =~= self.spec_deps());
                v
            },
            Target::Shared => {
                let v: Vec<Target> = Vec::new();
                assert(v@ =~= self.spec_deps());
                v
            },
            Target::Binding => {
                let v = vec![Target::Shared];
                assert(v@ =~= self.spec_deps());
                v
            },
            Target::Wrapper => {
                let v = vec![Target::Binding, Target::Shared];
                assert(v@ =~= self.spec_deps());
                v
            },
            Target::Wasm => {
                let v: Vec<Target> = Vec::new();
                assert(v@ =~= self.spec_deps());
                v
            },
            Target::Client => {
                let v = vec![Target::Shared, Target::Wasm];
                assert(v@ =~= self.spec_deps());
                v
            },
            Target::Updater => {
                let v: Vec<Target> = Vec::new();
                assert(v@ =~= self.spec_deps());
                v
            },
            Target::App => {
                let v = vec![Target::Wrapper, Target::Client, Target::Core, Target::Updater];
                assert(v@ =~= self.spec_deps());
                v
            },
            Target::Cli => {
                let v: Vec<Target> = Vec::new();
                assert(v@ =~= self.spec_deps());
                v
            },
        }
    }

    /// All targets, in declaration order.
    pub fn all() -> (r: Vec<Target>)
        ensures
            r@.len() == 9,
            forall|k: int| 0 <= k < 9 ==> (#[trigger] r@[k]).spec_ordinal() == k,
    {
        let v = vec![
            Target::Core,
            Target::Shared,
            Target::Binding,
            Target::Wrapper,
            Target::Wasm,
            Target::Client,
            Target::Updater,
            Target::App,
            Target::Cli,
        ];
        assert(forall|k: int| 0 <= k < 9 ==> (#[trigger] v@[k]).spec_ordinal() == k) by {
            assert(v@[0].spec_ordinal() == 0);
            assert(v@[1].spec_ordinal() == 1);
            assert(v@[2].spec_ordinal() == 2);
            assert(v@[3].spec_ordinal() == 3);
            assert(v@[4].spec_ordinal() == 4);
            assert(v@[5].spec_ordinal() == 5);
            assert(v@[6].spec_ordinal() == 6);
            assert(v@[7].spec_ordinal() == 7);
            assert(v@[8].spec_ordinal() == 8);
        }
        v
    }

    /// Whether the target is a Rust or a TypeScript unit.
    pub open spec fn spec_kind(self) -> TargetKind {
        match self {
            Target::Binding | Target::Core | Target::Cli | Target::Wasm | Target::Updater =>
                TargetKind::Rs,
            Target::Client | Target::Wrapper | Target::Shared | Target::App => TargetKind::Ts,
        }
    }

    /// The toolchain kind of the target.
    pub fn kind(&self) -> (r: TargetKind)
        ensures
            r == self.spec_kind(),
    {
        match self {
            Target::Binding | Target::Core | Target::Cli | Target::Wasm | Target::Updater =>
                TargetKind::Rs,
            Target::Client | Target::Wrapper | Target::Shared | Target::App => TargetKind::Ts,
        }
    }

    /// Which job types apply to which target.
    pub open spec fn spec_has_job(self, job_type: JobType) -> bool {
        match job_type {
            JobType::Lint | JobType::Clean | JobType::Build { .. } => true,
            JobType::Install { .. } => match self {
                Target::Binding | Target::Client | Target::Shared | Target::App
                | Target::Wasm => true,
                Target::Core | Target::Wrapper | Target::Updater | Target::Cli => false,
            },
            JobType::AfterBuild { .. } => match self {
                Target::Binding | Target::App => true,
                Target::Core | Target::Shared | Target::Wrapper | Target::Wasm
                | Target::Client | Target::Updater | Target::Cli => false,
            },
            JobType::Test { .. } => match self {
                Target::Wrapper | Target::Core | Target::Cli | Target::Wasm => true,
                Target::Shared | Target::Binding | Target::Client | Target::Updater
                | Target::App => false,
            },
            JobType::Run { .. } => false,
        }
    }

    /// Whether a job of the given type exists for this target.
    pub fn has_job(&self, job_type: JobType) -> (r: bool)
        ensures
            r == self.spec_has_job(job_type),
    {
        match job_type {
            JobType::Lint | JobType::Clean | JobType::Build { .. } => true,
            JobType::Install { .. } => match self {
                Target::Binding | Target::Client | Target::Shared | Target::App
                | Target::Wasm => true,
                Target::Core | Target::Wrapper | Target::Updater | Target::Cli => false,
            },
            JobType::AfterBuild { .. } => match self {
                Target::Binding | Target::App => true,
                Target::Core | Target::Shared | Target::Wrapper | Target::Wasm
                | Target::Client | Target::Updater | Target::Cli => false,
            },
            JobType::Test { .. } => match self {
                Target::Wrapper | Target::Core | Target::Cli | Target::Wasm => true,
                Target::Shared | Target::Binding | Target::Client | Target::Updater
                | Target::App => false,
            },
            JobType::Run { .. } => false,
        }
    }

    /// The display name of the target.
    pub fn name(&self) -> (r: &'static str)
        ensures
            self == Target::Core ==> r@ == "Core"@,
            self == Target::Shared ==> r@ == "Shared"@,
            self == Target::Binding ==> r@ == "Binding"@,
            self == Target::Wrapper ==> r@ == "Wrapper"@,
            self == Target::Wasm ==> r@ == "Wasm"@,
            self == Target::Client ==> r@ == "Client"@,
            self == Target::Updater ==> r@ == "Updater"@,
            self == Target::App ==> r@ == "App"@,
            self == Target::Cli ==> r@ == "Cli"@,
    {
        match self {
            Target::Core => "Core",
            Target::Shared => "Shared",
            Target::Binding => "Binding",
            Target::Wrapper => "Wrapper",
            Target::Wasm => "Wasm",
            Target::Client => "Client",
            Target::Updater => "Updater",
            Target::App => "App",
            Target::Cli => "Cli",
        }
    }

    /// The relative path of each target's working root, as character
    /// sequences of its components.
    pub open spec fn spec_relative_cwd(self) -> Seq<Seq<char>> {
        match self {
            Target::Core => seq!["application"@, "apps"@, "indexer"@],
            Target::Binding => seq!["application"@, "apps"@, "rustcore"@, "rs-bindings"@],
            Target::Wrapper => seq!["application"@, "apps"@, "rustcore"@, "ts-bindings"@],
            Target::Client => seq!["application"@, "client"@],
            Target::Shared => seq!["application"@, "platform"@],
            Target::App => seq!["application"@, "holder"@],
            Target::Cli => seq!["cli"@],
            Target::Wasm => seq!["application"@, "apps"@, "rustcore"@, "wasm-bindings"@],
            Target::Updater => seq!["application"@, "apps"@, "precompiled"@, "updater"@],
        }
    }

    /// The path components of the target's working root, relative to the
    /// repository root.
    pub fn relative_cwd(&self) -> (r: Vec<&'static str>)
        ensures
            r@.len() == self.spec_relative_cwd().len(),
            forall|k: int| 0 <= k < r@.len() ==> (#[trigger] r@[k])@ == self.spec_relative_cwd()[k],
    {
        match self {
            Target::Core => vec!["application", "apps", "indexer"],
            Target::Binding => vec!["application", "apps", "rustcore", "rs-bindings"],
            Target::Wrapper => vec!["application", "apps", "rustcore", "ts-bindings"],
            Target::Client => vec!["application", "client"],
            Target::Shared => vec!["application", "platform"],
            Target::App => vec!["application", "holder"],
            Target::Cli => vec!["cli"],
            Target::Wasm => vec!["application", "apps", "rustcore", "wasm-bindings"],
            Target::Updater => vec!["application", "apps", "precompiled", "updater"],
        }
    }

    /// The path components of the target's working root: the repository
    /// root followed by the relative components.
    pub fn cwd(&self, location: &Location) -> (r: Vec<String>)
        ensures
            r@.len() == 1 + self.spec_relative_cwd().len(),
            r@[0]@ == location.root@,
            forall|k: int|
                1 <= k < r@.len() ==> (#[trigger] r@[k])@ == self.spec_relative_cwd()[k - 1],
    {
        let mut v: Vec<String> = Vec::new();
        v.push(location.root.clone());
        let rel = self.relative_cwd();
        let mut k: usize = 0;
        while k < rel.len()
            invariant
                v@.len() == 1 + k as int,
                k <= rel@.len(),
                rel@.len() == self.spec_relative_cwd().len(),
                forall|m: int|
                    0 <= m < rel@.len() ==> (#[trigger] rel@[m])@ == self.spec_relative_cwd()[m],
                v@[0]@ == location.root@,
                forall|m: int|
                    1 <= m < v@.len() ==> (#[trigger] v@[m])@ == self.spec_relative_cwd()[m - 1],
            decreases rel@.len() - k,
        {
            v.push(String::from_str(rel[k]));
            k = k + 1;
        }
        v
    }
}

/// A target list with consecutive repetitions collapsed, keeping the
/// first of each run.
pub open spec fn spec_dedup_consecutive(s: Seq<Target>) -> Seq<Target>
    decreases s.len(),
{
    if s.len() <= 1 {
        s
    } else if s[s.len() - 1] == s[s.len() - 2] {
        spec_dedup_consecutive(s.drop_last())
    } else {
        spec_dedup_consecutive(s.drop_last()).push(s.last())
    }
}

/// The targets a run works on: the requested list with consecutive
/// repetitions collapsed, or every target when none was requested.
pub fn get_targets_or_default(targets: Option<Vec<Target>>) -> (r: Vec<Target>)
    ensures
        match targets {
            Some(list) => r@ == spec_dedup_consecutive(list@),
            None => r@.len() == 9 && (forall|k: int|
                0 <= k < 9 ==> (#[trigger] r@[k]).spec_ordinal() == k),
        },
{
    match targets {
        Some(list) => {
            let mut out: Vec<Target> = Vec::new();
            let mut i: usize = 0;
            assert(list@.subrange(0, 0) =~= Seq::<Target>::empty());
            while i < list.len()
                invariant
                    i <= list@.len(),
                    out@ == spec_dedup_consecutive(list@.subrange(0, i as int)),
                decreases list@.len() - i,
            {
                let ghost prefix = list@.subrange(0, i as int);
                let ghost prefix1 = list@.subrange(0, i as int + 1);
                assert(prefix1.drop_last() =~= prefix);
                assert(prefix1.last() == list@[i as int]);
                let keep = if i == 0 {
                    true
                } else {
                    assert(prefix1[i as int - 1] == list@[i as int - 1]);
                    list[i - 1] != list[i]
                };
                if keep {
                    out.push(list[i]);
                }
                i = i + 1;
            }
            assert(list@.subrange(0, list@.len() as int) =~= list@);
            out
        },
        None => Target::all(),
    }
}

/// Whether a list of targets holds the given target.
pub fn contains_target(v: &Vec<Target>, t: Target) -> (r: bool)
    ensures
        r == v@.contains(t),
{
    let mut k: usize = 0;
    let mut found = false;
    while k < v.len()
        invariant
            k <= v@.len(),
            found == exists|m: int| 0 <= m < k && v@[m] == t,
        decreases v@.len() - k,
    {
        if v[k] == t {
            found = true;
        }
        k = k + 1;
    }
    found
}

/// Every direct dependency of a target is declared strictly before it.
/// This is the acyclicity of the target dependency graph: any chain of
/// dependencies strictly descends in declaration order.
pub proof fn lemma_deps_are_declared_earlier(t: Target, d: Target)
    requires
        t.spec_deps().contains(d),
    ensures
        d.spec_ordinal() < t.spec_ordinal(),
{
    match t {
        Target::Core | Target::Shared | Target::Wasm | Target::Updater | Target::Cli => {
            assert(t.spec_deps().len() == 0);
        },
        Target::Binding => {
            assert(d == Target::Shared || d == t.spec_deps()[0]);
        },
        Target::Wrapper => {
            let s = t.spec_deps();
            assert(d == s[0] || d == s[1]);
        },
        Target::Client => {
            let s = t.spec_deps();
            assert(d == s[0] || d == s[1]);
        },
        Target::App => {
            let s = t.spec_deps();
            assert(d == s[0] || d == s[1] || d == s[2] || d == s[3]);
        },
    }
}

} // verus!
