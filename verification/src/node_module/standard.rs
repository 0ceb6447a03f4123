//! One resolved package of a scanned tree: its name, its resolved version
//! (parsed where possible, kept as the raw string otherwise), and its
//! classification against the application's manifest.

use core::cmp::Ordering;
use vstd::prelude::*;

use crate::cli::Cli;
use crate::node_module::{
    get_dep_type, spec_dep_type, spec_standard_filter, standard_filter, DepType, DepTypeView,
};
use crate::order::lex_cmp_str;
use crate::pjson_detail::PjsonDetail;
use crate::semver::{renders_to, Semver, SemverView};
use crate::text::{lex_cmp_chars, strip_ops};

verus! {

/// Model of a resolved version: a parsed semantic version, or the raw string
/// where parsing failed.
#[verifier::ext_equal]
pub ghost enum ResolvedVersionView {
    Parsed(SemverView),
    Raw(Seq<char>),
}

/// A package's resolved version: parsed where the string is a well-formed
/// semantic version, otherwise the raw string, opaque and not comparable.
#[derive(Debug)]
pub enum ResolvedVersion {
    Parsed(Semver),
    Raw(String),
}

impl View for ResolvedVersion {
    type V = ResolvedVersionView;

    open spec fn view(&self) -> ResolvedVersionView {
        match self {
            ResolvedVersion::Parsed(v) => ResolvedVersionView::Parsed(v@),
            ResolvedVersion::Raw(s) => ResolvedVersionView::Raw(s@),
        }
    }
}

impl Clone for ResolvedVersion {
    /// A copy with the same view.
    fn clone(&self) -> (res: Self)
        ensures
            res@ == self@,
    {
        match self {
            ResolvedVersion::Parsed(v) => ResolvedVersion::Parsed(v.clone()),
            ResolvedVersion::Raw(s) => ResolvedVersion::Raw(s.clone()),
        }
    }
}

impl ResolvedVersion {
    /// Reads a raw version string: parsed exactly when it is a well-formed
    /// semantic version (after stripping range operators), kept raw
    /// otherwise.
    pub fn from_raw(raw: String) -> (r: Self)
        ensures
            match r@ {
                ResolvedVersionView::Parsed(v) => renders_to(v, strip_ops(raw@)),
                ResolvedVersionView::Raw(s) => s == raw@ && forall|v: SemverView|
                    !renders_to(v, strip_ops(raw@)),
            },
    {
        let keep = raw.clone();
        match Semver::from(raw) {
            Some(sv) => ResolvedVersion::Parsed(sv),
            None => ResolvedVersion::Raw(keep),
        }
    }
}

/// Model of a resolved package record.
#[verifier::ext_equal]
pub ghost struct StandardModuleView {
    pub name: Seq<char>,
    pub version: ResolvedVersionView,
    pub dep_type: DepTypeView,
}

/// One resolved package: name, resolved version and classification.
#[derive(Debug)]
pub struct StandardModule {
    pub name: String,
    pub version: ResolvedVersion,
    pub dep_type: DepType,
}

impl View for StandardModule {
    type V = StandardModuleView;

    open spec fn view(&self) -> StandardModuleView {
        StandardModuleView { name: self.name@, version: self.version@, dep_type: self.dep_type@ }
    }
}

impl Clone for StandardModule {
    /// A copy with the same view.
    fn clone(&self) -> (res: Self)
        ensures
            res@ == self@,
    {
        let res = StandardModule {
            name: self.name.clone(),
            version: self.version.clone(),
            dep_type: self.dep_type.clone(),
        };
        proof {
            assert(res@ =~= self@);
        }
        res
    }
}

impl Default for StandardModule {
    /// An empty record: no name, an opaque empty version, transitive.
    fn default() -> (r: Self)
        ensures
            r@.name.len() == 0,
            r@.version matches ResolvedVersionView::Raw(s) && s.len() == 0,
            r@.dep_type == DepTypeView::ChildDependency,
    {
        StandardModule {
            name: String::new(),
            version: ResolvedVersion::Raw(String::new()),
            dep_type: DepType::ChildDependency,
        }
    }
}

impl StandardModule {
    /// Fills the record from one manifest reading: the package's name, its
    /// resolved version string, and its classification against the
    /// application's manifest.
    pub fn populate(&mut self, name: String, raw_version: String, app_pjson: &PjsonDetail)
        ensures
            final(self)@.name == name@,
            final(self)@.dep_type == spec_dep_type(name@, app_pjson@),
            match final(self)@.version {
                ResolvedVersionView::Parsed(v) => renders_to(v, strip_ops(raw_version@)),
                ResolvedVersionView::Raw(s) => s == raw_version@ && forall|v: SemverView|
                    !renders_to(v, strip_ops(raw_version@)),
            },
    {
        self.dep_type = get_dep_type(name.as_str(), app_pjson);
        self.version = ResolvedVersion::from_raw(raw_version);
        self.name = name;
    }

    /// Where this record sorts relative to another: by name, ordinally.
    pub fn order(&self, to_compare: &StandardModule) -> (r: Ordering)
        ensures
            r == lex_cmp_chars(self@.name, to_compare@.name),
    {
        lex_cmp_str(self.name.as_str(), to_compare.name.as_str())
    }

    /// Whether the listing keeps this record under the `dep` / `dev` flags.
    pub fn filter_by_args(&self, cli: &Cli) -> (r: bool)
        ensures
            r == spec_standard_filter(self@.dep_type, cli.dev, cli.dep),
    {
        standard_filter(&self.dep_type, cli)
    }
}

} // verus!
