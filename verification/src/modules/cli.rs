//! The capability module of the `Cli` target, the build tool itself.

use vstd::prelude::*;

use crate::location::Location;
use vstd::string::StringExecFns;
use crate::target::{Target, TargetKind};

verus! {

/// The module of the path `cli`.
#[derive(Clone, Debug)]
pub struct Module {}

impl Module {
    /// Creates the module.
    pub fn new() -> (r: Module)
        ensures
            r == (Module {  }),
    {
        Module {  }
    }

    /// The target this module belongs to.
    pub fn owner(&self) -> (r: Target)
        ensures
            r == Target::Cli,
    {
        Target::Cli
    }

    /// The toolchain kind of the owner.
    pub fn kind(&self) -> (r: TargetKind)
        ensures
            r == Target::Cli.spec_kind(),
    {
        TargetKind::Rs
    }

    /// The targets the owner depends on: none.
    pub fn deps(&self) -> (r: Vec<Target>)
        ensures
            r@ == Target::Cli.spec_deps(),
    {
        let v: Vec<Target> = Vec::new();
        assert(v@ =~= Target::Cli.spec_deps());
        v
    }

    /// The path components of the owner's working directory.
    pub fn cwd(&self, location: &Location) -> (r: Vec<String>)
        ensures
            r@.len() == 2,
            r@[0]@ == location.root@,
            r@[1]@ == "cli"@,
    {
        let mut v: Vec<String> = Vec::new();
        v.push(location.root.clone());
        v.push(String::from_str("cli"));
        v
    }
}

} // verus!
