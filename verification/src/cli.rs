//! The command-line options that the library's decisions depend on. The
//! struct holds plain values only; reading the actual process arguments is
//! the caller's concern.

use vstd::prelude::*;

verus! {

/// Options controlling filtering and rendering.
pub struct Cli {
    /// Pattern that package names were filtered by.
    pub filter: String,
    /// Path to the inspected application.
    pub path: String,
    /// Path of a second tree to compare against, if any.
    pub diff: Option<String>,
    /// List which packages require each package.
    pub required_by: bool,
    /// Inspect the globally installed tree.
    pub global: bool,
    /// Show declared dependencies.
    pub dep: bool,
    /// Show declared devDependencies.
    pub dev: bool,
    /// Include build metadata in rendered versions.
    pub meta: bool,
}

impl Default for Cli {
    /// The defaults: match every name, inspect the current directory, list
    /// one tree with every kind shown and build metadata suppressed.
    fn default() -> (r: Self)
        ensures
            r.filter@ == ".*"@,
            r.path@ == "."@,
            r.diff is None,
            !r.required_by,
            !r.global,
            !r.dep,
            !r.dev,
            !r.meta,
    {
        Cli {
            filter: ".*".to_owned(),
            path: ".".to_owned(),
            diff: None,
            required_by: false,
            global: false,
            dep: false,
            dev: false,
            meta: false,
        }
    }
}

} // verus!
