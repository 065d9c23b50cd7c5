//! The capability module of the `Wrapper` target, the TypeScript
//! bindings.

use vstd::prelude::*;

use crate::location::Location;
use vstd::string::StringExecFns;
use crate::target::{Target, TargetKind};

verus! {

/// The module of the path `application/apps/rustcore/ts-bindings`.
#[derive(Clone, Debug)]
pub struct Module {}

impl Module {
    /// Creates the module.
    pub fn new() -> (r: Module)
        ensures
            r == (Module {  }),
    {
        Module {  }
    }

    /// The target this module belongs to.
    pub fn owner(&self) -> (r: Target)
        ensures
            r == Target::Wrapper,
    {
        Target::Wrapper
    }

    /// The toolchain kind of the owner.
    pub fn kind(&self) -> (r: TargetKind)
        ensures
            r == Target::Wrapper.spec_kind(),
    {
        TargetKind::Ts
    }

    /// The targets the owner depends on.
    pub fn deps(&self) -> (r: Vec<Target>)
        ensures
            r@ == Target::Wrapper.spec_deps(),
    {
        let v = vec![Target::Binding, Target::Shared];
        assert(v@ =~= Target::Wrapper.spec_deps());
        v
    }

    /// The path components of the owner's working directory.
    pub fn cwd(&self, location: &Location) -> (r: Vec<String>)
        ensures
            r@.len() == 5,
            r@[0]@ == location.root@,
            r@[1]@ == "application"@,
            r@[2]@ == "apps"@,
            r@[3]@ == "rustcore"@,
            r@[4]@ == "ts-bindings"@,
    {
        let mut v: Vec<String> = Vec::new();
        v.push(location.root.clone());
        v.push(String::from_str("application"));
        v.push(String::from_str("apps"));
        v.push(String::from_str("rustcore"));
        v.push(String::from_str("ts-bindings"));
        v
    }
}

} // verus!
