//! The root of the repository that the tool operates on. Discovering
//! the root on disk is the caller's business; this module validates the
//! discovery and derives the fixed paths under it.

use vstd::string::StringExecFns;
use vstd::prelude::*;

verus! {

/// The repository root. Valid only for a directory that holds the
/// expected project layout; see [`init_location`].
#[derive(Clone, Debug)]
pub struct Location {
    /// The root directory of the repository.
    pub root: String,
}

/// Why a directory cannot serve as the repository root.
#[derive(Debug, Clone, Copy, PartialEq, Eq, Structural)]
pub enum LocationError {
    /// No repository was found around the working directory.
    RootNotFound,
    /// A repository was found, but it does not have the project layout.
    NotProjectRoot,
}

/// Validates a discovered repository root. The caller reports the
/// discovered working directory of the repository, if any, and whether
/// the two directories that mark the project layout exist under it.
/// Returns the location exactly when a root was found and both marker
/// directories are present.
pub fn init_location(
    discovered_root: Option<String>,
    has_application_dir: bool,
    has_developing_dir: bool,
) -> (r: Result<Location, LocationError>)
    ensures
        match r {
            Ok(loc) => {
                &&& discovered_root is Some
                &&& loc.root@ == discovered_root->0@
                &&& has_application_dir
                &&& has_developing_dir
            },
            Err(e) => {
                &&& discovered_root is None || !(has_application_dir && has_developing_dir)
                &&& (e == LocationError::RootNotFound <==> discovered_root is None)
            },
        },
{
    match discovered_root {
        None => Err(LocationError::RootNotFound),
        Some(root) => {
            if has_application_dir && has_developing_dir {
                Ok(Location { root })
            } else {
                Err(LocationError::NotProjectRoot)
            }
        },
    }
}

/// The path of the repository root held by a location.
pub fn get_root(location: &Location) -> (r: &String)
    ensures
        r@ == location.root@,
{
    &location.root
}

/// The path components of the configuration directory of the build
/// tool: `cli/config` under the repository root.
pub fn config_path(location: &Location) -> (r: Vec<String>)
    ensures
        r@.len() == 3,
        r@[0]@ == location.root@,
        r@[1]@ == "cli"@,
        r@[2]@ == "config"@,
{
    let mut v: Vec<String> = Vec::new();
    v.push(location.root.clone());
    v.push(String::from_str("cli"));
    v.push(String::from_str("config"));
    v
}

/// The path components of the log configuration file: `.chipmunk/log4rs.yaml`
/// under the caller's home directory.
pub fn chipmunk_log_config(home_dir: &String) -> (r: Vec<String>)
    ensures
        r@.len() == 3,
        r@[0]@ == home_dir@,
        r@[1]@ == ".chipmunk"@,
        r@[2]@ == "log4rs.yaml"@,
{
    let mut v: Vec<String> = Vec::new();
    v.push(home_dir.clone());
    v.push(String::from_str(".chipmunk"));
    v.push(String::from_str("log4rs.yaml"));
    v
}

/// The path components of the tool's directory in the user's home
/// directory: `.chipmunk/build_cli`.
pub fn build_cli_home_dir(home_dir: &String) -> (r: Vec<String>)
    ensures
        r@.len() == 3,
        r@[0]@ == home_dir@,
        r@[1]@ == ".chipmunk"@,
        r@[2]@ == "build_cli"@,
{
    let mut v: Vec<String> = Vec::new();
    v.push(home_dir.clone());
    v.push(String::from_str(".chipmunk"));
    v.push(String::from_str("build_cli"));
    v
}

} // verus!
